use herdr_chrome::app::slots::{SlotStore, MAX_STATUS_SLOT_SOURCES};
use herdr_chrome::app::status_strip::{
    drop_empty_segments, parse_status_right, ResolvedSegment, SegmentKind, StatusStripState,
};
use herdr_chrome::app::App;
use herdr_chrome::canvas::{Modifier, BOLD, ITALIC};
use herdr_chrome::clock::{format_clock, CivilFields, ClockTime};
use herdr_chrome::format::{parse_style_spec, split_style_attrs, Segment, StyleSpec};
use herdr_chrome::strip::StatusConfig;
use herdr_chrome::time::{Duration, Instant};

fn fixed_time() -> ClockTime {
    ClockTime {
        hour: 9,
        minute: 4,
        second: 7,
        day: 3,
        month: 7,
        year: 2026,
    }
}

fn start() -> Instant {
    Instant {
        nanos: 5_000_000_000_000,
    }
}

fn after(now: Instant, millis: u64) -> Instant {
    now.checked_add(Duration::from_millis(millis))
        .expect("representable instant")
}

fn config(status_right: &str, length: usize, interval: u64) -> StatusConfig {
    StatusConfig {
        status_right: status_right.into(),
        status_right_length: length,
        status_interval: interval,
    }
}

fn build(status_right: &str) -> StatusStripState {
    strip(status_right, 40, 5)
}

fn strip(status_right: &str, length: usize, interval: u64) -> StatusStripState {
    StatusStripState::from_config(&config(status_right, length, interval), true)
}

fn line(strip: &StatusStripState) -> String {
    strip.resolved_line(&SlotStore::default(), start())
}

fn bold() -> Modifier {
    Modifier { bits: BOLD }
}

// --- parser ----------------------------------------------------------

#[test]
fn status_strip_parses_literal_only() {
    assert_eq!(
        parse_status_right("hello"),
        vec![Segment::Literal("hello".into())]
    );
}

#[test]
fn status_strip_parses_empty_string_to_empty_vec() {
    assert!(parse_status_right("").is_empty());
}

#[test]
fn status_strip_parses_clock_and_splits_surrounding_literals() {
    assert_eq!(
        parse_status_right("at %H:%M now"),
        vec![
            Segment::Literal("at ".into()),
            Segment::Clock("%H:%M".into()),
            Segment::Literal(" now".into()),
        ]
    );
}

#[test]
fn status_strip_parses_mixed_segments_with_literal_separators() {
    assert_eq!(
        parse_status_right("#(gitmux) │ CPU #(cpu.sh)% │ %H:%M"),
        vec![
            Segment::Command("gitmux".into()),
            Segment::Literal(" │ CPU ".into()),
            Segment::Command("cpu.sh".into()),
            Segment::Literal("% │ ".into()),
            Segment::Clock("%H:%M".into()),
        ]
    );
}

#[test]
fn status_strip_malformed_tokens_degrade_to_literal_without_panic() {
    assert_eq!(
        parse_status_right("#(unclosed"),
        vec![Segment::Literal("#(unclosed".into())]
    );
    assert_eq!(
        parse_status_right("%Q"),
        vec![Segment::Literal("%Q".into())]
    );
    assert_eq!(
        parse_status_right("#[fg=green"),
        vec![Segment::Literal("#[fg=green".into())]
    );
    assert_eq!(
        parse_status_right("#{slot:git"),
        vec![Segment::Literal("#{slot:git".into())]
    );
    // A closed `#{…}` that is not `slot:` stays literal.
    assert_eq!(
        parse_status_right("#{foo}"),
        vec![Segment::Literal("#{foo}".into())]
    );
}

#[test]
fn parses_slot_token() {
    assert_eq!(
        parse_status_right("#{slot:git}"),
        vec![Segment::Slot("git".into())]
    );
}

#[test]
fn escaped_percent_and_trailing_percent_are_literal() {
    assert_eq!(
        parse_status_right("100%% done %"),
        vec![Segment::Literal("100% done %".into())]
    );
    // A connector joins two fields, and stays outside the run at its end.
    assert_eq!(
        parse_status_right("%d/%b, %Y - "),
        vec![
            Segment::Clock("%d/%b, %Y".into()),
            Segment::Literal(" - ".into()),
        ]
    );
}

// --- `#[…]` directives -----------------------------------------------

#[test]
fn directive_values_stay_raw_for_client_side_palette_resolution() {
    // A theme token has to reach the client verbatim, so that it tracks that
    // client's own palette.
    let spec = parse_style_spec("fg=black,bg=#1e1e2e,bold");
    assert_eq!(spec.fg.as_deref(), Some("black"));
    assert_eq!(spec.bg.as_deref(), Some("#1e1e2e"));
    assert!(spec.add_modifier.contains(bold()));
    assert!(!spec.reset);

    // A comma inside `rgb(…)` is not an attribute separator.
    assert_eq!(
        parse_style_spec("fg=rgb(1,2,3)").fg.as_deref(),
        Some("rgb(1,2,3)")
    );
}

#[test]
fn default_and_none_directives_are_reset() {
    assert!(parse_style_spec("default").reset);
    assert!(parse_style_spec("none").reset);
}

#[test]
fn unknown_attr_is_ignored_without_dropping_known_ones() {
    let spec = parse_style_spec("wat=1,bold");
    assert_eq!(spec.fg, None);
    assert_eq!(spec.bg, None);
    assert!(spec.add_modifier.contains(bold()));
}

#[test]
fn attributes_are_trimmed_and_case_is_folded() {
    let spec = parse_style_spec(" FG=Accent , Italic ,, dim");
    assert_eq!(spec.fg.as_deref(), Some("accent"));
    assert!(spec.add_modifier.contains(Modifier { bits: ITALIC }));
    assert!(!spec.add_modifier.contains(bold()));
}

#[test]
fn commas_outside_parentheses_split_attributes() {
    assert_eq!(
        split_style_attrs("fg=rgb(1,2,3),bold"),
        vec!["fg=rgb(1,2,3)".to_string(), "bold".to_string()]
    );
    // A closing parenthesis without an open one hides no comma.
    assert_eq!(
        split_style_attrs("a),b"),
        vec!["a)".to_string(), "b".to_string()]
    );
    assert_eq!(split_style_attrs(""), vec![String::new()]);
}

#[test]
fn style_directives_contribute_zero_resolved_segments() {
    let strip = build("#[fg=green]#[bold]");
    assert!(strip
        .resolved_segments(&SlotStore::default(), start())
        .is_empty());
}

#[test]
fn segment_captures_folded_style_and_default_resets_to_base() {
    let strip = build("#[fg=green]hi#[default]bye");
    let segs = strip.resolved_segments(&SlotStore::default(), start());
    assert_eq!(segs[0].text, "hi");
    assert_eq!(segs[0].style.fg.as_deref(), Some("green"));
    assert_eq!(segs[1].text, "bye");
    // `#[default]` folds back to the empty base, so the client applies its own
    // base style rather than inheriting green.
    assert_eq!(segs[1].style.fg, None);
}

#[test]
fn directives_layer_cumulatively_until_reset() {
    let strip = build("#[fg=green]#[bold]a#[bg=blue]b");
    let segs = strip.resolved_segments(&SlotStore::default(), start());
    assert_eq!(segs[0].style.fg.as_deref(), Some("green"));
    assert!(segs[0].style.add_modifier.contains(bold()));
    assert_eq!(segs[0].style.bg, None);
    // `b` keeps the earlier fg/bold and adds the new bg.
    assert_eq!(segs[1].style.fg.as_deref(), Some("green"));
    assert!(segs[1].style.add_modifier.contains(bold()));
    assert_eq!(segs[1].style.bg.as_deref(), Some("blue"));
}

#[test]
fn styles_do_not_change_resolved_text() {
    let styled = build("#[fg=green,bg=blue]abc#[default] │ #[bold]xy");
    let plain = build("abc │ xy");
    assert_eq!(line(&styled), line(&plain));
}

// --- clock ------------------------------------------------------------

#[test]
fn status_strip_clock_tokens_format_expected_strings() {
    let t = fixed_time();
    assert_eq!(format_clock("%H", &t), "09");
    assert_eq!(format_clock("%M", &t), "04");
    assert_eq!(format_clock("%S", &t), "07");
    assert_eq!(format_clock("%d", &t), "03");
    assert_eq!(format_clock("%b", &t), "Jul");
    assert_eq!(format_clock("%Y", &t), "2026");
    assert_eq!(format_clock("%H:%M:%S", &t), "09:04:07");
    assert_eq!(format_clock("%%", &t), "%");
    // Unknown tokens survive the formatter literally.
    assert_eq!(format_clock("%Q", &t), "%Q");
}

#[test]
fn clock_handles_odd_fields() {
    let t = ClockTime {
        month: 13,
        year: -44,
        hour: 123,
        ..fixed_time()
    };
    assert_eq!(format_clock("[%b]", &t), "[]");
    assert_eq!(format_clock("%Y", &t), "-44");
    assert_eq!(format_clock("%H", &t), "123");
    assert_eq!(format_clock("50%", &t), "50%");
}

#[test]
fn civil_fields_become_clock_fields() {
    let t = ClockTime::from_civil(CivilFields {
        hour: 23,
        minute: 59,
        second: 58,
        day: 31,
        month: 12,
        year: 1999,
    });
    assert_eq!(format_clock("%Y %b %d %H:%M:%S", &t), "1999 Dec 31 23:59:58");
}

#[test]
fn a_sample_gives_clock_fields_exactly_where_there_is_one() {
    assert_eq!(ClockTime::from_sample(None), None);
    let sample = CivilFields {
        hour: -1,
        minute: 4,
        second: 7,
        day: 3,
        month: 7,
        year: -44,
    };
    assert_eq!(
        ClockTime::from_sample(Some(sample)),
        Some(ClockTime {
            hour: 0,
            minute: 4,
            second: 7,
            day: 3,
            month: 7,
            year: -44,
        })
    );
}

#[test]
fn the_local_time_is_a_time_of_day() {
    let t = ClockTime::now_local().expect("a local time");
    assert!(t.hour <= 23 && t.minute <= 59 && t.second <= 59);
    assert!((1..=31).contains(&t.day) && (1..=12).contains(&t.month));
    assert!(t.year >= 2024);
}

#[test]
fn status_strip_clock_period_tracks_finest_field() {
    assert_eq!(
        strip("%H:%M:%S", 20, 30).clock_period(),
        Some(Duration::from_secs(1))
    );
    assert_eq!(
        strip("%H:%M", 20, 30).clock_period(),
        Some(Duration::from_secs(60))
    );
    assert_eq!(strip("#(cpu.sh)", 20, 30).clock_period(), None);
}

#[test]
fn refresh_clock_reports_only_real_changes() {
    let mut strip = build("%H:%M");
    assert!(strip.refresh_clock(&fixed_time()));
    // Formatting the same time again must not request a repaint.
    assert!(!strip.refresh_clock(&fixed_time()));
    let mut later = fixed_time();
    later.minute = 5;
    assert!(strip.refresh_clock(&later));
}

// --- command cache ----------------------------------------------------

#[test]
fn status_strip_command_segment_reads_cache_missing_key_is_empty() {
    let mut strip = strip("#(cpu.sh)", 20, 5);
    assert_eq!(line(&strip), "");
    assert!(strip.apply_command_result("cpu.sh", Ok(Some("42%".into()))));
    assert_eq!(line(&strip), "42%");
}

#[test]
fn command_error_or_empty_output_retains_last_good_value() {
    let mut strip = strip("#(cpu.sh)", 20, 5);
    assert!(strip.apply_command_result("cpu.sh", Ok(Some("42%".into()))));
    assert!(!strip.apply_command_result("cpu.sh", Err("boom".into())));
    assert!(!strip.apply_command_result("cpu.sh", Ok(None)));
    assert_eq!(line(&strip), "42%");
}

#[test]
fn status_strip_command_that_never_succeeded_and_errors_is_blank() {
    let mut strip = strip("#(cpu.sh)", 20, 5);
    assert!(!strip.apply_command_result("cpu.sh", Err("boom".into())));
    assert_eq!(line(&strip), "");
}

#[test]
fn status_strip_mixed_segment_list_resolves_in_order() {
    let mut strip = build("#(gitmux) │ %H:%M");
    strip.apply_command_result("gitmux", Ok(Some("main".into())));
    strip.refresh_clock(&fixed_time());
    assert_eq!(line(&strip), "main │ 09:04");
}

#[test]
fn results_of_unknown_commands_are_ignored() {
    let mut strip = build("#(gitmux)");
    assert!(!strip.apply_command_result("other", Ok(Some("x".into()))));
    assert!(strip.command_slot("other").is_none());
    assert_eq!(line(&strip), "");
    assert!(strip.apply_command_result("gitmux", Ok(Some("x".into()))));
    assert!(!strip.apply_command_result("gitmux", Ok(Some("x".into()))));
}

#[test]
fn commands_are_not_registered_where_they_cannot_run() {
    let mut strip = StatusStripState::from_config(&config("#(git) │ %H:%M", 40, 5), false);
    assert!(strip.due_commands(start()).is_empty());
    strip.refresh_clock(&fixed_time());
    assert_eq!(line(&strip), "09:04");
}

// --- scheduling -------------------------------------------------------

#[test]
fn status_strip_due_and_in_flight_scheduling() {
    let now = start();
    let mut strip = strip("#(cpu.sh)", 20, 5);
    // Never run: due immediately.
    assert_eq!(strip.due_commands(now), vec!["cpu.sh".to_string()]);

    strip.mark_command_started("cpu.sh", now);
    assert!(strip.due_commands(now).is_empty());
    // Even past the interval, an in-flight command is skipped, and it
    // contributes no deadline while it runs.
    assert!(strip.due_commands(after(now, 10_000)).is_empty());
    assert_eq!(strip.next_command_deadline(now), None);

    strip.apply_command_result("cpu.sh", Ok(Some("42%".into())));
    assert!(strip.due_commands(after(now, 1_000)).is_empty());
    assert_eq!(
        strip.due_commands(after(now, 6_000)),
        vec!["cpu.sh".to_string()]
    );
}

#[test]
fn timed_out_command_clears_in_flight_and_rearms() {
    let now = start();
    let mut strip = build("#(cpu.sh)");
    strip.mark_command_started("cpu.sh", now);
    assert!(strip.due_commands(now).is_empty(), "should be in flight");
    assert!(!strip.apply_command_result("cpu.sh", Err("timed out after 2s".into())));
    assert!(strip.due_commands(after(now, 1_000)).is_empty());
    assert_eq!(
        strip.due_commands(after(now, 6_000)),
        vec!["cpu.sh".to_string()]
    );
}

#[test]
fn status_strip_interval_floor_applied_via_config_accessor() {
    let now = start();
    let mut strip = strip("#(cpu.sh)", 20, 0);
    strip.mark_command_started("cpu.sh", now);
    strip.apply_command_result("cpu.sh", Ok(Some("x".into())));
    assert!(strip.due_commands(now).is_empty());
    assert_eq!(
        strip.due_commands(after(now, 1_000)),
        vec!["cpu.sh".to_string()]
    );
}

#[test]
fn the_deadline_is_that_of_the_earliest_idle_command() {
    let now = start();
    let mut strip = build("#(a) #(b)");
    assert_eq!(strip.next_command_deadline(now), Some(now));
    strip.mark_command_started("a", now);
    strip.mark_command_started("b", after(now, 1_000));
    strip.apply_command_result("a", Ok(None));
    assert_eq!(strip.next_command_deadline(now), Some(after(now, 5_000)));
    strip.apply_command_result("b", Ok(None));
    assert_eq!(strip.next_command_deadline(now), Some(after(now, 5_000)));
}

// --- enabling and budget --------------------------------------------

#[test]
fn empty_format_or_zero_length_disables_the_strip() {
    assert!(!strip("", 20, 5).is_enabled());
    assert!(!strip("   ", 20, 5).is_enabled());
    assert!(!strip("%H:%M", 0, 5).is_enabled());
    assert!(strip("%H:%M", 20, 5).is_enabled());
    // A disabled strip reserves no budget and resolves to nothing.
    assert_eq!(strip("%H:%M", 0, 5).budget(), 0);
    assert_eq!(strip("%H:%M", 20, 5).budget(), 20);
    assert_eq!(line(&strip("", 20, 5)), "");
}

#[test]
fn a_huge_budget_is_clamped() {
    assert_eq!(strip("%H", 1_000_000, 5).budget(), u16::MAX);
}

// --- empty-segment separator drop -------------------------------------

#[test]
fn empty_leading_command_drops_following_separator() {
    let mut strip = build("#(git) │ %H:%M");
    strip.refresh_clock(&fixed_time());
    assert_eq!(line(&strip), "09:04");
}

#[test]
fn empty_trailing_command_drops_preceding_separator() {
    let mut strip = build("%H:%M │ #(git)");
    strip.refresh_clock(&fixed_time());
    assert_eq!(line(&strip), "09:04");
}

#[test]
fn nonempty_neighbor_keeps_its_separator() {
    let mut strip = build("#(git) │ %H:%M");
    strip.apply_command_result("git", Ok(Some("main".into())));
    strip.refresh_clock(&fixed_time());
    assert_eq!(line(&strip), "main │ 09:04");
}

fn part(kind: SegmentKind, text: &str) -> ResolvedSegment {
    ResolvedSegment {
        kind,
        text: text.into(),
        style: StyleSpec::default(),
    }
}

#[test]
fn no_separator_dangles_whatever_is_blank() {
    for mask in 0..8 {
        let text = |bit: usize, shown: &str| {
            if mask & bit == 0 {
                String::new()
            } else {
                shown.to_string()
            }
        };
        let segs = vec![
            part(SegmentKind::Content, &text(1, "a")),
            part(SegmentKind::Literal, "|"),
            part(SegmentKind::Content, &text(2, "b")),
            part(SegmentKind::Literal, "|"),
            part(SegmentKind::Content, &text(4, "c")),
        ];
        let kept = drop_empty_segments(segs);
        let shown: Vec<String> = [(1, "a"), (2, "b"), (4, "c")]
            .iter()
            .filter(|(bit, _)| mask & bit != 0)
            .map(|(_, s)| s.to_string())
            .collect();
        let joined: String = kept.iter().map(|seg| seg.text.as_str()).collect();
        assert_eq!(joined, shown.join("|"), "mask {mask}");
    }
}

// --- push lane --------------------------------------------------------

#[test]
fn slot_store_set_and_get_by_source() {
    let mut store = SlotStore::default();
    let now = start();
    assert!(store.set("git".into(), "main".into(), None, None, now));
    assert_eq!(store.get("git", now), Some("main"));
    assert_eq!(store.get("cwd", now), None);
}

#[test]
fn slot_store_newer_seq_overwrites_older_and_equal_ignored() {
    let mut store = SlotStore::default();
    let now = start();
    assert!(store.set("git".into(), "main".into(), Some(5), None, now));
    assert!(!store.set("git".into(), "feature".into(), Some(5), None, now));
    assert_eq!(store.get("git", now), Some("main"));
    assert!(!store.set("git".into(), "feature".into(), Some(4), None, now));
    assert_eq!(store.get("git", now), Some("main"));
    assert!(store.set("git".into(), "feature".into(), Some(6), None, now));
    assert_eq!(store.get("git", now), Some("feature"));
}

#[test]
fn slot_store_ttl_expiry_hides_value_at_read_time() {
    let mut store = SlotStore::default();
    let now = start();
    assert!(store.set(
        "t".into(),
        "hi".into(),
        None,
        Some(Duration::from_millis(10)),
        now
    ));
    assert_eq!(store.get("t", after(now, 5)), Some("hi"));
    assert_eq!(store.get("t", after(now, 10)), None);
    assert_eq!(store.get("t", after(now, 50)), None);
}

#[test]
fn slot_store_clear_removes_value_and_seq_watermark() {
    let mut store = SlotStore::default();
    let now = start();
    store.set("git".into(), "main".into(), Some(9), None, now);
    assert!(store.clear("git", now));
    assert_eq!(store.get("git", now), None);
    assert!(!store.clear("git", now));
    // A fresh writer after clear starts clean even with a low seq.
    assert!(store.set("git".into(), "dev".into(), Some(1), None, now));
    assert_eq!(store.get("git", now), Some("dev"));
}

#[test]
fn slot_store_caps_live_sources_but_reclaims_expired_ones() {
    let mut store = SlotStore::default();
    let now = start();
    for index in 0..MAX_STATUS_SLOT_SOURCES {
        let source = format!("s{index}");
        assert!(!store.at_capacity_for(&source, now), "source {index}");
        store.set(source, "x".into(), None, None, now);
    }
    // A new source beyond the cap is refused; an existing one still writes.
    assert!(store.at_capacity_for("overflow", now));
    assert!(!store.at_capacity_for("s0", now));

    // Expired entries are reclaimed before the cap is applied, so a store full
    // of lapsed TTLs still admits a new writer.
    let mut store = SlotStore::default();
    for index in 0..MAX_STATUS_SLOT_SOURCES {
        store.set(
            format!("s{index}"),
            "x".into(),
            None,
            Some(Duration::from_millis(10)),
            now,
        );
    }
    assert!(store.at_capacity_for("overflow", now));
    let later = after(now, 50);
    assert!(!store.at_capacity_for("overflow", later));
    // The reclaimed sources took their seq watermarks with them, so a fresh
    // writer on a recycled key starts clean.
    assert!(store.set("s0".into(), "new".into(), Some(1), None, later));
}

#[test]
fn references_slot_only_matches_tokens_the_format_string_renders() {
    let configured = build("#{slot:git} │ %H:%M");
    assert!(configured.references_slot("git"));
    assert!(!configured.references_slot("app"));
    // A disabled strip renders nothing, so it references nothing.
    assert!(!strip("#{slot:git}", 0, 5).references_slot("git"));
}

#[test]
fn slot_store_set_reports_visible_change() {
    let mut store = SlotStore::default();
    let now = start();
    assert!(store.set("s".into(), "a".into(), None, None, now));
    assert!(!store.set("s".into(), "a".into(), None, None, now));
    assert!(store.set("s".into(), "b".into(), None, None, now));
}

#[test]
fn slot_renders_pushed_value_and_drops_its_separator_when_unset() {
    let mut strip = build("#{slot:git} │ %H:%M");
    strip.refresh_clock(&fixed_time());
    assert_eq!(line(&strip), "09:04");

    let mut slots = SlotStore::default();
    slots.set("git".into(), "main".into(), None, None, start());
    assert_eq!(strip.resolved_line(&slots, start()), "main │ 09:04");
}

#[test]
fn slot_composes_with_command_and_clock() {
    let mut strip = build("#{slot:git} │ #(cpu.sh)% │ %H:%M");
    strip.apply_command_result("cpu.sh", Ok(Some("42".into())));
    strip.refresh_clock(&fixed_time());
    let mut slots = SlotStore::default();
    slots.set("git".into(), "main".into(), None, None, start());
    assert_eq!(strip.resolved_line(&slots, start()), "main │ 42% │ 09:04");
}

#[test]
fn styled_pill_around_slot_keeps_its_directive_values() {
    let strip = build("#[fg=red,bg=green]#{slot:git}#[default] │ %H:%M");
    let mut slots = SlotStore::default();
    slots.set("git".into(), "main".into(), None, None, start());
    let segs = strip.resolved_segments(&slots, start());
    let slot_seg = segs
        .iter()
        .find(|seg| seg.text == "main")
        .expect("slot segment");
    assert_eq!(slot_seg.style.fg.as_deref(), Some("red"));
    assert_eq!(slot_seg.style.bg.as_deref(), Some("green"));
}

#[test]
fn purging_keeps_live_values_and_their_numbers() {
    let mut store = SlotStore::default();
    let now = start();
    store.set("keep".into(), "k".into(), Some(3), None, now);
    store.set("drop".into(), "d".into(), Some(3), Some(Duration::from_millis(1)), now);
    let later = after(now, 1);
    store.purge_expired(later);
    assert_eq!(store.get("keep", later), Some("k"));
    assert!(!store.accept_seq("keep", Some(3)));
    assert!(store.accept_seq("drop", Some(1)));
    assert_eq!(store.resolve("drop", later), "");
    assert_eq!(store.resolve("keep", later), "k");
    // Purging again changes nothing.
    store.purge_expired(later);
    assert_eq!(store.resolve("keep", later), "k");
    assert_eq!(store.resolve("drop", later), "");
}

// --- the endpoint's tick -------------------------------------------------

fn app_with(status_right: &str) -> App {
    let mut app = App::new();
    app.configure_status_strip(&config(status_right, 40, 5), true, start());
    app
}

#[test]
fn a_tick_refreshes_the_clock_and_spawns_each_due_command_once() {
    let now = start();
    let mut app = app_with("#(a) #(b) %H:%M");
    let tick = app.run_status_strip_tasks(now, true, Some(fixed_time()));
    assert!(tick.changed);
    let mut commands: Vec<&str> = tick.spawns.iter().map(|s| s.command.as_str()).collect();
    commands.sort();
    assert_eq!(commands, ["a", "b"]);
    assert!(tick.spawns.iter().all(|s| s.generation == 1));
    assert!(tick.spawns.iter().all(|s| s.timeout == Duration::from_secs(2)));

    let again = app.run_status_strip_tasks(now, true, Some(fixed_time()));
    assert!(!again.changed);
    assert!(again.spawns.is_empty());
    // Nor at any later instant, while the commands run.
    let later = app.run_status_strip_tasks(after(now, 50_000), true, None);
    assert!(later.spawns.is_empty());
    assert!(app.handle_status_command_finished(1, "a".into(), Ok(Some("x".into()))));
    let later = app.run_status_strip_tasks(after(now, 51_000), true, None);
    let commands: Vec<&str> = later.spawns.iter().map(|s| s.command.as_str()).collect();
    assert_eq!(commands, ["a"]);
    // The clock shows minutes only, so it is next due a minute later.
    assert_eq!(
        app.next_status_strip_deadline(true, now),
        Some(after(now, 60_000))
    );
}

#[test]
fn nobody_watching_means_no_deadline_and_no_spawn() {
    let now = start();
    let mut app = app_with("#(a) %H:%M");
    assert_eq!(app.next_status_strip_deadline(false, now), None);
    assert_eq!(app.next_status_strip_deadline(true, now), Some(now));
    let tick = app.handle_status_strip_tasks(now, false);
    assert!(!tick.changed && tick.spawns.is_empty());
    // A client that attaches gets the local time on the first tick.
    let tick = app.handle_status_strip_tasks(now, true);
    assert!(tick.changed);
    assert_eq!(tick.spawns.len(), 1);
}

#[test]
fn results_from_a_superseded_configuration_are_discarded() {
    let now = start();
    let mut app = app_with("#(a)");
    let tick = app.run_status_strip_tasks(now, true, None);
    let old = tick.spawns[0].generation;
    app.configure_status_strip(&config("#(a)", 40, 5), true, now);
    assert!(!app.handle_status_command_finished(old, "a".into(), Ok(Some("stale".into()))));
    assert_eq!(line(&app.state.status_strip), "");
    let tick = app.run_status_strip_tasks(now, true, None);
    assert!(app.handle_status_command_finished(
        tick.spawns[0].generation,
        "a".into(),
        Ok(Some("fresh".into()))
    ));
    assert_eq!(line(&app.state.status_strip), "fresh");
}

#[test]
fn pushed_values_survive_a_new_configuration() {
    let now = start();
    let mut app = app_with("#{slot:git}");
    app.state
        .status_slots
        .set("git".into(), "main".into(), None, None, now);
    app.configure_status_strip(&config("[#{slot:git}]", 40, 5), true, now);
    assert_eq!(
        app.state.status_strip.resolved_line(&app.state.status_slots, now),
        "[main]"
    );
}
