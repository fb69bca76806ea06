use herdr_chrome::format::Segment;
use herdr_chrome::strip::StatusConfig;
use herdr_chrome::time::{Duration, Instant};
use herdr_chrome::ui::status_right::{
    command_outcome, display_width, fit_segments, format_clock, parse_status_right, sanitize_command_output,
    truncate_to_columns, ClockTime, CommandExit, ResolvedSegment, SegmentKind, StatusStripState,
    MAX_SEGMENT_CHARS,
};

fn fixed_time() -> ClockTime {
    ClockTime {
        hour: 9,
        minute: 4,
        second: 7,
        day: 3,
        month: 7,
        year: 2026,
    }
}

fn content(text: &str) -> ResolvedSegment {
    ResolvedSegment {
        kind: SegmentKind::Content,
        text: text.to_string(),
    }
}

fn sep(text: &str) -> ResolvedSegment {
    ResolvedSegment {
        kind: SegmentKind::Literal,
        text: text.to_string(),
    }
}

fn strip(status_right: &str, length: usize, interval: u64) -> StatusStripState {
    StatusStripState::from_config(&StatusConfig {
        status_right: status_right.into(),
        status_right_length: length,
        status_interval: interval,
    })
}

fn start() -> Instant {
    Instant {
        nanos: 7_000_000_000,
    }
}

fn after(now: Instant, secs: u64) -> Instant {
    now.checked_add(Duration::from_secs(secs)).expect("instant")
}

#[test]
fn status_right_parses_literal_only() {
    assert_eq!(
        parse_status_right("hello"),
        vec![Segment::Literal("hello".into())]
    );
}

#[test]
fn status_right_parses_empty_string_to_empty_vec() {
    assert!(parse_status_right("").is_empty());
}

#[test]
fn status_right_parses_clock_and_splits_surrounding_literals() {
    assert_eq!(
        parse_status_right("at %H:%M now"),
        vec![
            Segment::Literal("at ".into()),
            Segment::Clock("%H:%M".into()),
            Segment::Literal(" now".into()),
        ]
    );
}

#[test]
fn parses_single_command() {
    assert_eq!(
        parse_status_right("#(cpu.sh)"),
        vec![Segment::Command("cpu.sh".into())]
    );
}

#[test]
fn status_right_parses_mixed_segments_with_literal_separators() {
    assert_eq!(
        parse_status_right("#(gitmux) │ CPU #(cpu.sh)% │ %H:%M"),
        vec![
            Segment::Command("gitmux".into()),
            Segment::Literal(" │ CPU ".into()),
            Segment::Command("cpu.sh".into()),
            Segment::Literal("% │ ".into()),
            Segment::Clock("%H:%M".into()),
        ]
    );
}

#[test]
fn status_right_malformed_tokens_degrade_to_literal_without_panic() {
    assert_eq!(
        parse_status_right("#(unclosed"),
        vec![Segment::Literal("#(unclosed".into())]
    );
    // Unknown specifier is kept literally.
    assert_eq!(
        parse_status_right("%Q"),
        vec![Segment::Literal("%Q".into())]
    );
}

#[test]
fn slots_and_directives_are_plain_text_here() {
    assert_eq!(
        parse_status_right("#[bold]#{slot:git}"),
        vec![Segment::Literal("#[bold]#{slot:git}".into())]
    );
}

#[test]
fn status_right_clock_tokens_format_expected_strings() {
    let t = fixed_time();
    assert_eq!(format_clock("%H", &t), "09");
    assert_eq!(format_clock("%M", &t), "04");
    assert_eq!(format_clock("%S", &t), "07");
    assert_eq!(format_clock("%d", &t), "03");
    assert_eq!(format_clock("%b", &t), "Jul");
    assert_eq!(format_clock("%Y", &t), "2026");
    assert_eq!(format_clock("%H:%M:%S", &t), "09:04:07");
    assert_eq!(format_clock("%%", &t), "%");
}

#[test]
fn stray_unknown_token_renders_literally_in_formatter() {
    let t = fixed_time();
    assert_eq!(format_clock("%Q", &t), "%Q");
}

#[test]
fn status_right_command_segment_reads_cache_missing_key_is_empty() {
    let mut strip = strip("#(cpu.sh)", 20, 5);
    // Before any run, the cache is empty and the segment renders empty.
    assert_eq!(strip.render_line(20), "");
    assert!(strip.apply_command_result("cpu.sh", Ok("42%".into())));
    assert_eq!(strip.render_line(20), "42%");
}

#[test]
fn sanitize_strips_control_and_escape_bytes_and_caps_length() {
    let dirty = "\x1b[31mbranch\x07\nsecond line";
    let clean = sanitize_command_output(dirty);
    assert!(!clean.contains('\u{1b}'));
    assert!(!clean.contains('\u{7}'));
    assert!(!clean.contains("second line")); // only first line kept
    assert!(clean.contains("branch"));

    let long = "x".repeat(MAX_SEGMENT_CHARS + 50);
    assert_eq!(
        sanitize_command_output(&long).chars().count(),
        MAX_SEGMENT_CHARS
    );
}

#[test]
fn sanitizing_trims_and_is_idempotent() {
    let clean = sanitize_command_output("  \tmain\u{a0}*  \r\nrest");
    assert_eq!(clean, "main\u{a0}*");
    assert_eq!(sanitize_command_output(&clean), clean);
    assert_eq!(sanitize_command_output("\n late"), "");
}

#[test]
fn command_error_retains_last_good_value() {
    let mut strip = strip("#(cpu.sh)", 20, 5);
    assert!(strip.apply_command_result("cpu.sh", Ok("42%".into())));
    // An error keeps the previous value.
    assert!(!strip.apply_command_result("cpu.sh", Err("boom".into())));
    assert_eq!(strip.render_line(20), "42%");
    // So does output that sanitizes to nothing.
    assert!(!strip.apply_command_result("cpu.sh", Ok(" \u{7} \n".into())));
    assert_eq!(strip.render_line(20), "42%");
}

#[test]
fn status_right_command_that_never_succeeded_and_errors_is_blank() {
    let mut strip = strip("#(cpu.sh)", 20, 5);
    assert!(!strip.apply_command_result("cpu.sh", Err("boom".into())));
    assert_eq!(strip.render_line(20), "");
}

#[test]
fn status_right_mixed_segment_list_resolves_in_order() {
    let mut strip = strip("#(gitmux) │ %H:%M", 40, 5);
    strip.apply_command_result("gitmux", Ok("main".into()));
    strip.refresh_clock(&fixed_time());
    assert_eq!(strip.render_line(40), "main │ 09:04");
}

#[test]
fn the_line_is_clamped_to_the_available_width() {
    let mut strip = strip("#(gitmux) │ %H:%M", 40, 5);
    strip.apply_command_result("gitmux", Ok("main".into()));
    strip.refresh_clock(&fixed_time());
    assert_eq!(strip.render_line(6), "09:04");
    assert_eq!(strip.render_line(3), "09…");
    assert_eq!(strip.render_line(0), "");
}

#[test]
fn fit_keeps_all_when_within_budget() {
    let segs = vec![content("main"), sep(" │ "), content("09:04")];
    assert_eq!(fit_segments(&segs, 40), "main │ 09:04");
}

#[test]
fn fit_drops_leftmost_segment_and_adjacent_separator() {
    let segs = vec![content("main"), sep(" │ "), content("09:04")];
    // Budget fits only "09:04": drop "main" AND the dangling " │ ".
    assert_eq!(fit_segments(&segs, 6), "09:04");
}

#[test]
fn fit_drops_until_only_rightmost_survives() {
    let segs = vec![
        content("aaaa"),
        sep(" │ "),
        content("bbbb"),
        sep(" │ "),
        content("cc"),
    ];
    assert_eq!(fit_segments(&segs, 3), "cc");
}

#[test]
fn fit_truncates_lone_oversize_segment_with_ellipsis() {
    let segs = vec![content("2026-07-09")];
    let out = fit_segments(&segs, 5);
    assert!(out.ends_with('…'), "out: {out:?}");
    assert!(display_width(&out) <= 5, "out width: {out:?}");
    assert_eq!(out, "2026…");
}

#[test]
fn fit_measures_display_width_for_wide_glyphs() {
    // Each CJK glyph is 2 columns; four glyphs = 8 columns.
    let segs = vec![content("提交反馈")];
    assert_eq!(display_width("提交反馈"), 8);
    let out = fit_segments(&segs, 5);
    // Truncated by display columns (with the ellipsis) rather than chars.
    assert!(
        display_width(&out) <= 5,
        "out: {out:?} width {}",
        display_width(&out)
    );
    assert!(out.ends_with('…'));
}

#[test]
fn a_text_without_room_is_cut_to_nothing() {
    assert_eq!(truncate_to_columns("abc", 0), "");
    assert_eq!(truncate_to_columns("abc", 1), "…");
    assert_eq!(truncate_to_columns("abc", 3), "abc");
    // A control character counts no column, a wide one two.
    assert_eq!(truncate_to_columns("a\u{7}提交反馈", 4), "a\u{7}提…");
}

#[test]
fn render_line_empty_when_disabled() {
    assert_eq!(strip("", 20, 5).render_line(20), "");
    assert_eq!(strip("x", 0, 5).render_line(20), "");
}

#[test]
fn status_right_clock_period_tracks_finest_field() {
    assert_eq!(
        strip("%H:%M:%S", 20, 30).clock_period(),
        Some(Duration::from_secs(1))
    );
    assert_eq!(
        strip("%H:%M", 20, 30).clock_period(),
        Some(Duration::from_secs(60))
    );
    assert_eq!(strip("#(cpu.sh)", 20, 30).clock_period(), None);
    assert!(strip("#(cpu.sh)", 20, 30).has_commands());
    assert!(!strip("%H", 20, 30).has_commands());
    assert_eq!(
        strip("%H", 20, 30).command_interval(),
        Duration::from_secs(30)
    );
}

#[test]
fn status_right_due_and_in_flight_scheduling() {
    let now = start();
    let mut strip = strip("#(cpu.sh)", 20, 5);
    // Never run: due immediately.
    assert_eq!(strip.due_commands(now), vec!["cpu.sh".to_string()]);

    strip.mark_command_started("cpu.sh", now);
    // In flight: not spawned again.
    assert!(strip.due_commands(now).is_empty());
    // Even past the interval, an in-flight command is skipped.
    assert!(strip.due_commands(after(now, 10)).is_empty());

    // Completion clears in-flight; not yet due again within the interval.
    strip.apply_command_result("cpu.sh", Ok("42%".into()));
    assert!(strip.due_commands(after(now, 1)).is_empty());
    // Due again once the interval elapses.
    assert_eq!(strip.due_commands(after(now, 6)), vec!["cpu.sh".to_string()]);
}

#[test]
fn status_right_interval_floor_applied_via_config_accessor() {
    let now = start();
    let mut strip = strip("#(cpu.sh)", 20, 0);
    strip.mark_command_started("cpu.sh", now);
    strip.apply_command_result("cpu.sh", Ok("x".into()));
    assert!(strip.due_commands(now).is_empty());
    assert_eq!(strip.due_commands(after(now, 1)), vec!["cpu.sh".to_string()]);
}

#[test]
fn only_a_successful_command_hands_its_output_back() {
    assert_eq!(
        command_outcome(CommandExit::Success, "main\n".into()),
        Ok("main\n".to_string())
    );
    assert_eq!(
        command_outcome(CommandExit::Failure(Some(-3)), "main".into()),
        Err("exit status Some(-3)".to_string())
    );
    assert_eq!(
        command_outcome(CommandExit::Failure(None), "main".into()),
        Err("exit status None".to_string())
    );
    assert_eq!(
        command_outcome(CommandExit::NotRun("no such file".into()), String::new()),
        Err("no such file".to_string())
    );
}
