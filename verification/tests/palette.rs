use herdr_chrome::api::schema::PluginActionInfo;
use herdr_chrome::app::command_palette::{
    builtin_disposition, builtin_entries, builtin_keybind_label, custom_entries_from_config,
    fuzzy_score, picker_entry_desc, picker_entry_name, plugin_entries_from_registry,
    BuiltinDisposition, CommandEntry, CommandHandle, CommandPaletteState, CommandSource,
    SourceToggles,
};
use herdr_chrome::app::navigate::{all_builtin_actions, NavigateAction};
use herdr_chrome::canvas::{Canvas, Color, DrawOp, Palette, Rect};
use herdr_chrome::palette::actions::{
    ActionKeybinds, CustomCommandAction, CustomCommandKeybind, Keybinds,
};
use herdr_chrome::palette::fuzzy::is_scorable;
use herdr_chrome::palette::rows::{
    clamp_selection, keep_first_of_each, sort_by_name, wrap_selection,
};
use herdr_chrome::ui::command_palette::{
    palette_areas, palette_box_size, render_command_palette_overlay, truncate_ellipsis,
    visible_window, PaletteAreas,
};

/// The bindings that a fresh configuration has, as far as these tests look.
fn keybinds() -> Keybinds {
    let mut keybinds = Keybinds::unbound();
    keybinds.zoom = ActionKeybinds::bound("prefix+z");
    keybinds.command_palette = ActionKeybinds::bound("prefix+:");
    keybinds
}

fn colors() -> Palette {
    Palette {
        accent: Color::Rgb(0xcb, 0xa6, 0xf7),
        panel_bg: Color::Rgb(0x18, 0x18, 0x25),
        surface0: Color::Rgb(0x31, 0x32, 0x44),
        surface1: Color::Rgb(0x45, 0x47, 0x5a),
        surface_dim: Color::Rgb(0x11, 0x11, 0x1b),
        overlay0: Color::Rgb(0x6c, 0x70, 0x86),
        overlay1: Color::Rgb(0x7f, 0x84, 0x9c),
        text: Color::Rgb(0xcd, 0xd6, 0xf4),
        subtext0: Color::Rgb(0xa6, 0xad, 0xc8),
        mauve: Color::Rgb(0xca, 0xa5, 0xf6),
        teal: Color::Rgb(0x94, 0xe2, 0xd5),
        peach: Color::Rgb(0xfa, 0xb3, 0x87),
        panel_contrast_fg: Color::Rgb(0x1e, 0x1e, 0x2e),
    }
}

#[test]
fn fuzzy_matches_subsequence_and_ranks_prefix_higher() {
    assert!(fuzzy_score("rena", "rename-workspace").is_some());
    assert!(fuzzy_score("xyz", "rename-workspace").is_none());
    // empty query matches everything with a neutral score
    assert_eq!(fuzzy_score("", "zoom"), Some(0));
    // a contiguous prefix outranks a scattered subsequence
    let prefix = fuzzy_score("ren", "rename-tab").unwrap();
    let scattered = fuzzy_score("ren", "reset-pane-navigation").unwrap();
    assert!(prefix > scattered);
}

#[test]
fn builtin_catalog_covers_actions_and_routes_index_variants() {
    let entries = builtin_entries(&keybinds());
    // every entry is a built-in, alphabetical, with a non-empty name
    assert!(entries.iter().all(|e| e.source == CommandSource::BuiltIn));
    assert!(entries.windows(2).all(|w| w[0].name <= w[1].name));
    assert!(entries.iter().all(|e| !e.name.is_empty()));
    // a representative no-arg action is present
    assert!(entries.iter().any(|e| e.name == "navigator"));
    // index-bearing variants route to a picker handle, not a fixed index
    assert!(matches!(
        builtin_disposition(&NavigateAction::SwitchWorkspace(0)),
        BuiltinDisposition::RouteToPicker(_)
    ));
}

#[test]
fn keybind_resolves_for_builtins_and_is_blank_for_other_sources() {
    let kb = keybinds();
    // a representative built-in resolves to its configured chord
    assert_eq!(
        builtin_keybind_label(&kb, &NavigateAction::Zoom).as_deref(),
        Some("prefix+z")
    );
    // the palette entry for it carries the same string
    let zoom = builtin_entries(&kb)
        .into_iter()
        .find(|e| e.name == "zoom")
        .expect("zoom entry present");
    assert_eq!(zoom.keybinding.as_deref(), Some("prefix+z"));
    // an unbound-by-default built-in yields no keybind column
    assert!(builtin_keybind_label(&kb, &NavigateAction::OpenWorktree).is_none());
    // a label-less custom surfaces its chord as the name, blank keybind column;
    // a labeled custom shows the label as the name and its chord on the right.
    let customs = vec![
        CustomCommandKeybind {
            bindings: ActionKeybinds::unbound(),
            label: "prefix+ctrl+j".to_string(),
            keybind_display: None,
            command: "swap-pane-down".to_string(),
            action: CustomCommandAction::Pane,
            description: Some("swap pane down".to_string()),
        },
        CustomCommandKeybind {
            bindings: ActionKeybinds::unbound(),
            label: "Deploy web".to_string(),
            keybind_display: Some("prefix+ctrl+d".to_string()),
            command: "deploy".to_string(),
            action: CustomCommandAction::Shell,
            description: Some("ship it".to_string()),
        },
    ];
    let custom = custom_entries_from_config(&customs);
    assert_eq!(custom.len(), 2);
    assert_eq!(custom[0].name, "prefix+ctrl+j");
    assert!(custom[0].keybinding.is_none());
    assert_eq!(custom[1].name, "Deploy web");
    assert_eq!(custom[1].keybinding.as_deref(), Some("prefix+ctrl+d"));
}

fn plugin_entries_from(v: Vec<(String, String, Option<String>)>) -> Vec<CommandEntry> {
    v.into_iter()
        .map(|(id, title, desc)| CommandEntry {
            name: title,
            description: desc,
            keybinding: None,
            source: CommandSource::Plugin,
            handle: CommandHandle::Plugin(id),
        })
        .collect()
}

#[test]
fn assemble_merges_sources_dedups_by_identity_and_sorts() {
    let mut state = CommandPaletteState::default();
    let plugin = vec![("acme.build".to_string(), "build".to_string(), None)];
    let custom: Vec<CommandEntry> = vec![CommandEntry {
        name: "deploy".to_string(),
        description: None,
        keybinding: None,
        source: CommandSource::Custom,
        handle: CommandHandle::Plugin("acme.deploy".to_string()),
    }];
    state.assemble(
        SourceToggles::all(),
        &keybinds(),
        plugin_entries_from(plugin),
        custom,
    );
    // sorted alphabetically across all sources
    assert!(state.entries.windows(2).all(|w| w[0].name <= w[1].name));
    // a plugin entry survived and carries its source tag
    assert!(state
        .entries
        .iter()
        .any(|e| e.source == CommandSource::Plugin && e.name == "build"));
    // disabling built-ins drops them
    let mut only_plugins = CommandPaletteState::default();
    only_plugins.assemble(
        SourceToggles {
            built_in: false,
            plugin: true,
            custom: false,
        },
        &keybinds(),
        plugin_entries_from(vec![("acme.build".to_string(), "build".to_string(), None)]),
        vec![],
    );
    assert!(only_plugins
        .entries
        .iter()
        .all(|e| e.source == CommandSource::Plugin));
    // `visible` mirrors `filtered`
    assert_eq!(only_plugins.visible().len(), only_plugins.filtered.len());
}

fn opened() -> CommandPaletteState {
    let mut state = CommandPaletteState::default();
    state.assemble(SourceToggles::all(), &keybinds(), vec![], vec![]);
    state
}

#[test]
fn move_selection_wraps_around() {
    let mut state = opened();
    let n = state.filtered.len();
    assert!(n > 1, "catalog should hold more than one entry");
    // from row 0, a single step up wraps to the last row
    state.move_selection(-1);
    assert_eq!(state.selected, n - 1);
    // from the last row, a single step down wraps back to row 0
    state.move_selection(1);
    assert_eq!(state.selected, 0);
    // empty list stays put
    let mut empty = CommandPaletteState::default();
    empty.move_selection(1);
    assert_eq!(empty.selected, 0);
}

#[test]
fn jump_clamped_clamps_at_both_ends_without_wrap() {
    let mut state = opened();
    let n = state.filtered.len();
    assert!(n > 4, "catalog should hold several entries");
    // from the middle, moves by the delta
    state.selected = 2;
    state.jump_clamped(1);
    assert_eq!(state.selected, 3);
    // near the top, a large negative jump clamps to 0 (does NOT wrap to the end)
    state.selected = 1;
    state.jump_clamped(-1000);
    assert_eq!(state.selected, 0);
    // near the bottom, a large positive jump clamps to the last row (no wrap)
    state.selected = n - 2;
    state.jump_clamped(1000);
    assert_eq!(state.selected, n - 1);
}

#[test]
fn select_first_and_last_land_on_ends() {
    let mut state = opened();
    let n = state.filtered.len();
    state.select_last();
    assert_eq!(state.selected, n - 1);
    state.select_first();
    assert_eq!(state.selected, 0);
    // empty list stays at 0 for both
    let mut empty = CommandPaletteState::default();
    empty.select_last();
    assert_eq!(empty.selected, 0);
    empty.select_first();
    assert_eq!(empty.selected, 0);
}

#[test]
fn colliding_plugin_titles_are_not_deduped() {
    // two DIFFERENT plugin actions that share the display title "build"
    let plugins = plugin_entries_from(vec![
        ("acme.build".to_string(), "build".to_string(), None),
        ("other.build".to_string(), "build".to_string(), None),
    ]);
    let mut state = CommandPaletteState::default();
    state.assemble(
        SourceToggles {
            built_in: false,
            plugin: true,
            custom: false,
        },
        &keybinds(),
        plugins,
        vec![],
    );
    // distinct ids give distinct identity keys, so both survive
    assert_eq!(
        state.entries.iter().filter(|e| e.name == "build").count(),
        2
    );
}

#[test]
fn the_same_plugin_action_is_listed_once() {
    let plugins = plugin_entries_from(vec![
        ("acme.build".to_string(), "build".to_string(), None),
        ("acme.build".to_string(), "zbuild".to_string(), None),
    ]);
    let mut state = CommandPaletteState::default();
    state.assemble(
        SourceToggles {
            built_in: false,
            plugin: true,
            custom: true,
        },
        &keybinds(),
        plugins,
        vec![],
    );
    assert_eq!(state.entries.len(), 1);
    assert_eq!(state.entries[0].name, "build");
    assert_eq!(state.entries[0].identity_key(), "plugin:acme.build");
}

#[test]
fn scores_are_exact() {
    // The first place earns ten and later ones less, down to one; each match of
    // a run earns twice its place in the run.
    assert_eq!(fuzzy_score("zoom", "zoom"), Some(12 + 13 + 14 + 15));
    assert_eq!(fuzzy_score("zm", "zoom"), Some(12 + 9));
    assert_eq!(fuzzy_score("e", "new-workspace"), Some(11));
    assert_eq!(fuzzy_score("p", "new-workspace"), Some(3));
    assert_eq!(fuzzy_score("ZOOM", "zoom"), Some(54));
    assert_eq!(fuzzy_score("zoom", "zo"), None);
    assert_eq!(fuzzy_score("oz", "zoom"), None);
}

#[test]
fn names_that_start_with_the_query_score_highest() {
    let best = fuzzy_score("ren", "rename-tab");
    assert_eq!(fuzzy_score("ren", "Renovate"), best);
    for other in ["xren", "re-name", "r-e-n", "children"] {
        assert!(fuzzy_score("ren", other) < best, "{other}");
    }
}

#[test]
fn a_longer_query_lists_no_more_rows() {
    let mut state = opened();
    let all = state.filtered.len();
    state.query = "pane".into();
    state.refilter();
    let some = state.filtered.clone();
    assert!(some.len() < all);
    assert!(some
        .iter()
        .all(|i| fuzzy_score("pane", &state.entries[*i].name).is_some()));
    for longer in ["panel", "pane-left", "pane up"] {
        state.query = longer.into();
        state.refilter();
        assert!(state.filtered.iter().all(|i| some.contains(i)));
    }
}

#[test]
fn equal_scores_keep_the_order_of_the_catalog() {
    let state = opened();
    let expected: Vec<usize> = (0..state.entries.len()).collect();
    assert_eq!(state.filtered, expected);
    assert_eq!(
        state.selected_entry().map(|e| e.name.as_str()),
        Some(state.entries[0].name.as_str())
    );
}

#[test]
fn every_navigate_action_has_its_row_or_a_picker() {
    for action in all_builtin_actions() {
        match builtin_disposition(&action) {
            BuiltinDisposition::Entry { name, description } => {
                assert!(!name.is_empty() && !description.is_empty());
            }
            BuiltinDisposition::RouteToPicker(picker) => {
                assert!(!picker_entry_name(&picker).is_empty());
                assert!(!picker_entry_desc(&picker).is_empty());
            }
            BuiltinDisposition::Exclude => {
                assert_eq!(action, NavigateAction::OpenCommandPalette);
            }
        }
    }
}

#[test]
fn plugin_rows_take_the_title_and_run_the_full_id() {
    let rows = plugin_entries_from_registry(&[PluginActionInfo {
        plugin_id: "acme".into(),
        action_id: "build".into(),
        title: "Build all".into(),
        description: Some("compile".into()),
    }]);
    assert_eq!(rows.len(), 1);
    assert_eq!(rows[0].name, "Build all");
    assert_eq!(rows[0].description.as_deref(), Some("compile"));
    assert_eq!(rows[0].source.tag(), "plugin");
    assert!(matches!(&rows[0].handle, CommandHandle::Plugin(id) if id == "acme.build"));
}

#[test]
fn selections_are_exact() {
    assert_eq!(wrap_selection(0, 5, -1), 4);
    assert_eq!(wrap_selection(4, 5, 1), 0);
    assert_eq!(wrap_selection(1, 5, 7), 3);
    assert_eq!(wrap_selection(3, 0, 1), 0);
    assert_eq!(clamp_selection(1, 5, 2), 3);
    assert_eq!(clamp_selection(1, 5, 9), 4);
    assert_eq!(clamp_selection(1, 5, -9), 0);
    assert_eq!(clamp_selection(1, 0, 1), 0);
}

#[test]
fn command_palette_visible_window_keeps_selection_in_view() {
    // 100 rows, viewport 10, selected near the end, so the window ends past selected
    let (start, end) = visible_window(100, 10, 95);
    assert!(start <= 95 && 95 < end);
    assert_eq!(end - start, 10);
    // selection at top
    assert_eq!(visible_window(100, 10, 0), (0, 10));
    // fewer rows than viewport
    assert_eq!(visible_window(3, 10, 0), (0, 3));
}

#[test]
fn truncate_ellipsis_caps_width() {
    assert_eq!(truncate_ellipsis("rename-workspace", 8), "rename-…");
    assert_eq!(truncate_ellipsis("zoom", 8), "zoom");
}

#[test]
fn the_box_takes_six_tenths_of_the_screen() {
    assert_eq!(palette_box_size(Rect::new(0, 0, 100, 50)), (60, 30));
    assert_eq!(palette_box_size(Rect::new(0, 0, 10, 4)), (20, 5));
    assert_eq!(palette_box_size(Rect::new(0, 0, 20000, 50)), (6553, 30));
}

#[test]
fn the_box_is_laid_out_in_the_middle_or_not_at_all() {
    assert_eq!(
        palette_areas(Rect::new(0, 0, 100, 50)),
        Some(PaletteAreas {
            outer: Rect::new(20, 10, 60, 30),
            header: Rect::new(21, 11, 58, 1),
            list: Rect::new(21, 13, 58, 26),
        })
    );
    assert_eq!(palette_areas(Rect::new(0, 0, 19, 50)), None);
    assert_eq!(palette_areas(Rect::new(0, 0, 100, 4)), None);
}

#[test]
fn only_scores_past_32_bits_are_refused() {
    let long = "a".repeat(40_000);
    // One matched character scores little, however long the name is.
    assert!(is_scorable("a", &long));
    assert_eq!(fuzzy_score("a", &long), Some(12));
    assert!(is_scorable("", &long));
    // A run of as many characters adds up to more than 32 bits count.
    assert!(!is_scorable(&"a".repeat(50_000), &"a".repeat(50_000)));
}

fn drawn_texts(canvas: &Canvas) -> Vec<String> {
    canvas
        .ops
        .iter()
        .filter_map(|op| match op {
            DrawOp::Text { text, .. } => Some(text.clone()),
            _ => None,
        })
        .collect()
}

#[test]
fn the_overlay_shows_the_query_and_the_rows_in_view() {
    let mut state = opened();
    state.query = "zoom".into();
    state.refilter();
    let mut canvas = Canvas::new(Rect::new(0, 0, 60, 20));
    render_command_palette_overlay(
        &mut canvas,
        &state,
        Rect::new(1, 1, 40, 1),
        Rect::new(1, 3, 40, 5),
        &colors(),
    );
    let texts = drawn_texts(&canvas);
    assert_eq!(texts[0], " zoom█");
    assert!(texts[1].starts_with(" zoom "), "{texts:?}");
    assert_eq!(texts[2], "built-in");

    state.query = "qqq".into();
    state.refilter();
    let mut canvas = Canvas::new(Rect::new(0, 0, 60, 20));
    render_command_palette_overlay(
        &mut canvas,
        &state,
        Rect::new(1, 1, 40, 1),
        Rect::new(1, 3, 40, 5),
        &colors(),
    );
    assert_eq!(drawn_texts(&canvas)[1], "  No commands match \"qqq\"");
}

#[test]
fn rows_of_one_name_keep_their_order() {
    let rows = || {
        plugin_entries_from(vec![
            ("b.two".to_string(), "same".to_string(), None),
            ("z.last".to_string(), "later".to_string(), None),
            ("a.one".to_string(), "same".to_string(), None),
            ("b.two".to_string(), "again".to_string(), None),
        ])
    };
    let keys = |rows: Vec<CommandEntry>| -> Vec<String> {
        rows.iter().map(|row| row.identity_key()).collect()
    };
    assert_eq!(
        keys(sort_by_name(rows())),
        ["plugin:b.two", "plugin:z.last", "plugin:b.two", "plugin:a.one"]
    );
    assert_eq!(
        keys(keep_first_of_each(rows())),
        ["plugin:b.two", "plugin:z.last", "plugin:a.one"]
    );
}
