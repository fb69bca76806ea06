use herdr_chrome::api::schema::PluginActionInfo;
use herdr_chrome::app::command_palette::SourceToggles;
use herdr_chrome::canvas::{Canvas, Color, DrawOp, Palette, Rect};
use herdr_chrome::client::command_palette::{
    delete_trailing_word, fuzzy_score, ClientCommandPaletteOverlay, ClientPaletteHandle,
    ClientPaletteSource, EndpointReply, KeyCode, PaletteKey, QueryEdit, ALT, CONTROL, SHIFT, SUPER,
};
use herdr_chrome::client::command_palette_overlay::{
    command_palette_row, position_indicator, render_command_palette_overlay, truncate_ellipsis,
    visible_window, RowSpanKind,
};
use herdr_chrome::client::{
    ClientShellAction, ClientShellConfig, ClientShellInput, ClientShellOverlay,
    ClientShellSnapshot, ClientShellState, EndpointMethod, KeybindMatch, TabCapStyleConfig,
};
use herdr_chrome::palette::actions::{
    ActionKeybinds, CustomCommandAction, CustomCommandKeybind, KeybindAction, Keybinds,
};
use herdr_chrome::width::display_width;

fn colors() -> Palette {
    Palette {
        accent: Color::Rgb(0xcb, 0xa6, 0xf7),
        panel_bg: Color::Rgb(0x18, 0x18, 0x25),
        surface0: Color::Rgb(0x31, 0x32, 0x44),
        surface1: Color::Rgb(0x45, 0x47, 0x5a),
        surface_dim: Color::Rgb(0x11, 0x11, 0x1b),
        overlay0: Color::Rgb(0x6c, 0x70, 0x86),
        overlay1: Color::Rgb(0x7f, 0x84, 0x9c),
        text: Color::Rgb(0xcd, 0xd6, 0xf4),
        subtext0: Color::Rgb(0xa6, 0xad, 0xc8),
        mauve: Color::Rgb(0xca, 0xa5, 0xf6),
        teal: Color::Rgb(0x94, 0xe2, 0xd5),
        peach: Color::Rgb(0xfa, 0xb3, 0x87),
        panel_contrast_fg: Color::Rgb(0x1e, 0x1e, 0x2e),
    }
}

fn snapshot() -> ClientShellSnapshot {
    ClientShellSnapshot {
        tabs: vec![],
        focused_workspace_id: None,
        tab_bar_right: vec![],
        tab_bar_right_separator: String::new(),
        status_strip: vec![],
        status_strip_budget: 0,
    }
}

fn detached_state() -> ClientShellState {
    let mut keybinds = Keybinds::unbound();
    keybinds.zoom = ActionKeybinds::bound("prefix+z");
    keybinds.command_palette = ActionKeybinds::bound("prefix+:");
    ClientShellState::new(ClientShellConfig {
        palette: colors(),
        mouse_capture: true,
        tab_style: TabCapStyleConfig::Block,
        rounded_borders: true,
        keybinds,
        command_palette_sources: SourceToggles::all(),
    })
}

fn default_state() -> ClientShellState {
    let mut state = detached_state();
    state.snapshot = Some(snapshot());
    state
}

fn press_with(state: &mut ClientShellState, code: KeyCode, modifiers: u8) -> ClientShellInput {
    let mut outcome = ClientShellInput::default();
    if let Some(ClientShellOverlay::CommandPalette(_)) = state.overlay {
        let key = PaletteKey {
            code,
            modifiers,
            generated_text: None,
        };
        state.route_command_palette_key(&key, &mut outcome);
    }
    outcome
}

fn press(state: &mut ClientShellState, code: KeyCode) -> ClientShellInput {
    press_with(state, code, 0)
}

fn type_text(state: &mut ClientShellState, text: &str) {
    for c in text.chars() {
        press(state, KeyCode::Char(c));
    }
}

fn palette(state: &ClientShellState) -> &ClientCommandPaletteOverlay {
    match state.overlay.as_ref() {
        Some(ClientShellOverlay::CommandPalette(palette)) => palette,
        other => panic!("expected an open command palette, got {other:?}"),
    }
}

fn visible_names(state: &ClientShellState) -> Vec<String> {
    let palette = palette(state);
    palette
        .filtered
        .iter()
        .map(|index| palette.entries[*index].name.clone())
        .collect()
}

/// Open the palette and return what the open asked for.
fn open(state: &mut ClientShellState) -> ClientShellInput {
    let mut outcome = ClientShellInput::default();
    state.open_command_palette(&mut outcome);
    outcome
}

/// The id of the one request for the plugin list.
fn list_request(outcome: &ClientShellInput) -> u64 {
    match outcome.actions.as_slice() {
        [ClientShellAction::Endpoint {
            id,
            method: EndpointMethod::PluginActionList,
        }] => *id,
        other => panic!("expected one plugin.action.list request, got {other:?}"),
    }
}

fn shell_command(command_id: &str, binding_label: &str, chord: &str) -> CustomCommandKeybind {
    CustomCommandKeybind {
        bindings: ActionKeybinds::bound(chord),
        label: binding_label.into(),
        keybind_display: if binding_label == chord {
            None
        } else {
            Some(chord.into())
        },
        command: command_id.into(),
        action: CustomCommandAction::Shell,
        description: Some("ship it".into()),
    }
}

fn plugin_action(plugin_id: &str, action_id: &str, title: &str) -> PluginActionInfo {
    PluginActionInfo {
        plugin_id: plugin_id.into(),
        action_id: action_id.into(),
        title: title.into(),
        description: None,
    }
}

fn list_of(actions: Vec<PluginActionInfo>) -> Result<EndpointReply, String> {
    Ok(EndpointReply::PluginActionList(actions))
}

/// Draw the palette on a screen of its own and record what can be hit.
fn compose(state: &mut ClientShellState, cols: u16, rows: u16) -> Canvas {
    let mut canvas = Canvas::new(Rect::new(0, 0, cols, rows));
    let colors = state.config.palette;
    let rounded = state.config.rounded_borders;
    let drawn = match state.overlay.as_ref() {
        Some(ClientShellOverlay::CommandPalette(palette)) => {
            render_command_palette_overlay(&mut canvas, palette, &colors, rounded)
        }
        _ => None,
    };
    if let Some(drawn) = drawn {
        state.hits.command_palette_popup = drawn.command_palette_popup;
        state.hits.command_palette_rows = drawn.command_palette_rows;
        state.hits.command_palette_list_height = drawn.command_palette_list_height;
    }
    canvas
}

fn drawn_text(canvas: &Canvas) -> String {
    canvas
        .ops
        .iter()
        .filter_map(|op| match op {
            DrawOp::Text { text, .. } => Some(text.as_str()),
            _ => None,
        })
        .collect()
}

#[test]
fn opening_shows_the_catalog_and_esc_closes_it() {
    let mut state = default_state();
    assert!(state.overlay.is_none());

    open(&mut state);
    assert!(!palette(&state).entries.is_empty(), "catalog was empty");
    assert!(palette(&state).query.is_empty());
    assert_eq!(palette(&state).selected, 0);

    let closed = press(&mut state, KeyCode::Esc);
    assert!(closed.repaint);
    assert!(state.overlay.is_none());
}

#[test]
fn the_palette_never_offers_itself() {
    // Opening the palette from inside the palette is meaningless, so the
    // catalog excludes its own action rather than recursing.
    let mut state = default_state();
    open(&mut state);
    assert!(
        !palette(&state).entries.iter().any(|entry| matches!(
            entry.handle,
            ClientPaletteHandle::Action(KeybindAction::OpenCommandPalette)
        )),
        "palette listed itself"
    );
}

#[test]
fn typing_filters_the_catalog_and_sends_the_selection_back_to_the_best_match() {
    let mut state = default_state();
    open(&mut state);
    let total = palette(&state).filtered.len();

    press(&mut state, KeyCode::Down);
    press(&mut state, KeyCode::Down);
    assert_eq!(palette(&state).selected, 2);

    type_text(&mut state, "zoo");
    assert_eq!(palette(&state).query, "zoo");
    // A changed query invalidates the old ranking, so selection returns to the
    // new best match rather than staying on whatever row 2 now holds.
    assert_eq!(palette(&state).selected, 0);
    let filtered = visible_names(&state);
    assert!(filtered.len() < total, "query did not narrow the list");
    assert_eq!(filtered.first().map(String::as_str), Some("zoom"));

    // A subsequence that no command contains empties the list without closing.
    type_text(&mut state, "qqq");
    assert!(palette(&state).filtered.is_empty());
    assert!(matches!(
        state.overlay,
        Some(ClientShellOverlay::CommandPalette(_))
    ));

    // Backspacing back to a matching prefix restores the results.
    for _ in 0..3 {
        press(&mut state, KeyCode::Backspace);
    }
    assert_eq!(palette(&state).query, "zoo");
    assert_eq!(
        visible_names(&state).first().map(String::as_str),
        Some("zoom")
    );
}

#[test]
fn enter_on_an_empty_result_list_is_a_no_op() {
    let mut state = default_state();
    open(&mut state);
    type_text(&mut state, "qqq");

    let outcome = press(&mut state, KeyCode::Enter);
    assert!(outcome.actions.is_empty());
    assert!(
        matches!(state.overlay, Some(ClientShellOverlay::CommandPalette(_))),
        "an unrunnable enter closed the palette"
    );
}

#[test]
fn arrows_wrap_while_page_keys_clamp() {
    let mut state = default_state();
    open(&mut state);
    let last = palette(&state).filtered.len() - 1;
    assert!(last > 4, "catalog should hold several entries");

    // Single steps wrap around both ends.
    press(&mut state, KeyCode::Up);
    assert_eq!(palette(&state).selected, last);
    press(&mut state, KeyCode::Down);
    assert_eq!(palette(&state).selected, 0);
    // ctrl+p / ctrl+n are the same movement, not query text.
    press_with(&mut state, KeyCode::Char('p'), CONTROL);
    assert_eq!(palette(&state).selected, last);
    press_with(&mut state, KeyCode::Char('n'), CONTROL);
    assert_eq!(palette(&state).selected, 0);
    assert!(palette(&state).query.is_empty(), "movement chords typed");

    // Page keys stop at the ends instead of wrapping.
    press(&mut state, KeyCode::PageUp);
    assert_eq!(palette(&state).selected, 0);
    press(&mut state, KeyCode::End);
    assert_eq!(palette(&state).selected, last);
    press(&mut state, KeyCode::PageDown);
    assert_eq!(palette(&state).selected, last);
    press(&mut state, KeyCode::Home);
    assert_eq!(palette(&state).selected, 0);
}

#[test]
fn running_a_builtin_sends_the_same_request_its_chord_would_have() {
    let mut state = default_state();
    open(&mut state);
    type_text(&mut state, "zoom");
    assert_eq!(
        visible_names(&state).first().map(String::as_str),
        Some("zoom")
    );
    let outcome = press(&mut state, KeyCode::Enter);

    assert!(matches!(
        outcome.actions.as_slice(),
        [ClientShellAction::Binding(KeybindMatch::Action(
            KeybindAction::Zoom
        ))]
    ));
    assert!(state.overlay.is_none(), "palette stayed open after running");
}

#[test]
fn running_a_builtin_that_opens_an_overlay_finds_the_palette_closed() {
    // The palette closes before the action is done: `help` opens an overlay of
    // its own, which a palette that closed afterwards would throw away.
    let mut state = default_state();
    open(&mut state);
    type_text(&mut state, "help");
    let outcome = press(&mut state, KeyCode::Enter);
    assert!(state.overlay.is_none());
    assert!(matches!(
        outcome.actions.as_slice(),
        [ClientShellAction::Binding(KeybindMatch::Action(
            KeybindAction::Help
        ))]
    ));
}

#[test]
fn an_index_bearing_builtin_routes_to_its_picker_instead_of_a_fixed_index() {
    let mut state = default_state();
    open(&mut state);
    // `switch-workspace 1` is not a palette row; the workspace picker is.
    let names = visible_names(&state);
    assert!(names.iter().any(|name| name == "workspace-picker"));
    assert!(!names.iter().any(|name| name.starts_with("switch-")));

    type_text(&mut state, "workspace-");
    assert_eq!(
        visible_names(&state).first().map(String::as_str),
        Some("workspace-picker")
    );
    let outcome = press(&mut state, KeyCode::Enter);
    assert!(matches!(
        outcome.actions.as_slice(),
        [ClientShellAction::Binding(KeybindMatch::Action(
            KeybindAction::WorkspacePicker
        ))]
    ));
}

#[test]
fn running_a_custom_command_invokes_only_the_opaque_endpoint_id() {
    let mut state = default_state();
    state.config.keybinds.custom_commands =
        vec![shell_command("cmd_deploy", "Deploy web", "prefix+ctrl+d")];

    open(&mut state);
    let deploy = palette(&state)
        .entries
        .iter()
        .find(|entry| entry.name == "Deploy web")
        .expect("labelled custom command in the catalog");
    assert_eq!(deploy.source, ClientPaletteSource::Custom);
    // A labelled custom shows its chord in the keybind column; the name is the
    // label, so the chord is not printed twice.
    assert_eq!(deploy.keybinding.as_deref(), Some("prefix+ctrl+d"));
    assert_eq!(deploy.description.as_deref(), Some("ship it"));

    type_text(&mut state, "Dep");
    let outcome = press(&mut state, KeyCode::Enter);
    let [ClientShellAction::Binding(KeybindMatch::Command(command))] = outcome.actions.as_slice()
    else {
        panic!("expected a command, got {:?}", outcome.actions);
    };
    assert_eq!(command.command, "cmd_deploy");
}

#[test]
fn a_label_less_custom_command_keeps_its_chord_as_the_name() {
    let mut state = default_state();
    // The label is the chord when the config set no label.
    state.config.keybinds.custom_commands =
        vec![shell_command("cmd_raw", "prefix+ctrl+j", "prefix+ctrl+j")];

    open(&mut state);
    let raw = palette(&state)
        .entries
        .iter()
        .find(|entry| entry.name == "prefix+ctrl+j")
        .expect("label-less custom command in the catalog");
    assert!(
        raw.keybinding.is_none(),
        "chord printed twice: {:?}",
        raw.keybinding
    );
}

#[test]
fn plugin_actions_are_fetched_on_open_and_merged_without_moving_the_selection() {
    let mut state = default_state();
    let opened = open(&mut state);
    assert!(palette(&state).loading_plugin_actions);
    let request_id = list_request(&opened);

    // Highlight a row, then let the catalog grow underneath it.
    type_text(&mut state, "zoom");
    let highlighted = palette(&state)
        .selected_entry()
        .expect("a highlighted row")
        .name
        .clone();

    let repaint = state.handle_endpoint_result(
        request_id,
        list_of(vec![
            plugin_action("acme", "build", "build"),
            plugin_action("other", "build", "build"),
        ]),
    );
    assert!(repaint);
    assert!(!palette(&state).loading_plugin_actions);
    assert_eq!(
        palette(&state)
            .selected_entry()
            .expect("selection survived the merge")
            .name,
        highlighted,
        "the merge moved the selection out from under the user"
    );

    // Two different plugin actions sharing one title both survive: dedup keys on
    // handle identity, not display name.
    for _ in 0..4 {
        press(&mut state, KeyCode::Backspace);
    }
    assert_eq!(
        palette(&state)
            .entries
            .iter()
            .filter(|entry| entry.name == "build")
            .count(),
        2
    );
}

#[test]
fn running_a_plugin_action_invokes_it_through_the_public_api() {
    let mut state = default_state();
    let opened = open(&mut state);
    state.handle_endpoint_result(
        list_request(&opened),
        list_of(vec![plugin_action("acme", "deploy", "acme deploy")]),
    );

    type_text(&mut state, "acme");
    let outcome = press(&mut state, KeyCode::Enter);
    let [ClientShellAction::Endpoint {
        method:
            EndpointMethod::PluginActionInvoke {
                plugin_id,
                action_id,
            },
        ..
    }] = outcome.actions.as_slice()
    else {
        panic!("expected plugin.action.invoke, got {:?}", outcome.actions);
    };
    assert_eq!(plugin_id, "acme");
    assert_eq!(action_id, "deploy");
}

#[test]
fn a_late_plugin_list_is_dropped_once_the_palette_has_closed() {
    let mut state = default_state();
    let opened = open(&mut state);
    let request_id = list_request(&opened);
    press(&mut state, KeyCode::Esc);

    let repaint = state.handle_endpoint_result(
        request_id,
        list_of(vec![plugin_action("acme", "build", "build")]),
    );
    assert!(!repaint);
    assert!(state.overlay.is_none(), "a late list reopened the palette");
}

#[test]
fn source_toggles_gate_the_catalog_and_the_plugin_request() {
    let mut state = default_state();
    state.config.command_palette_sources.built_in = false;
    state.config.command_palette_sources.plugin = false;
    state.config.keybinds.custom_commands =
        vec![shell_command("cmd_deploy", "Deploy web", "prefix+ctrl+d")];

    let opened = open(&mut state);
    assert!(
        opened.actions.is_empty(),
        "plugin list requested with the plugin source off"
    );
    assert!(!palette(&state).loading_plugin_actions);
    assert!(palette(&state)
        .entries
        .iter()
        .all(|entry| entry.source == ClientPaletteSource::Custom));
    assert_eq!(visible_names(&state), ["Deploy web"]);
}

#[test]
fn source_toggles_follow_config_reload_rather_than_the_open_catalog() {
    // The toggle is a config-driven flag, so a reload that turns a source off has
    // to change what the *next* open assembles.
    let mut state = default_state();
    assert!(state.config.command_palette_sources.plugin);

    state.config.command_palette_sources.plugin = false;
    let opened = open(&mut state);
    assert!(opened.actions.is_empty());
    assert!(!palette(&state).loading_plugin_actions);
}

#[test]
fn the_palette_renders_its_query_rows_and_position_counter() {
    let mut state = default_state();
    let opened = open(&mut state);
    type_text(&mut state, "zoom");

    // While the plugin list is in flight the header says so rather than showing
    // a counter over a catalog that is still growing.
    let loading = drawn_text(&compose(&mut state, 120, 32));
    assert!(loading.contains("> zoom"), "query line missing");
    assert!(loading.contains("Toggle pane zoom"), "description missing");
    assert!(loading.contains("built-in"), "source tag missing");
    assert!(loading.contains("loading plugins…"), "loading hint missing");

    state.handle_endpoint_result(list_request(&opened), list_of(Vec::new()));

    let settled = drawn_text(&compose(&mut state, 120, 32));
    assert!(settled.contains("1/1"), "position counter missing");
    assert!(!settled.contains("loading plugins…"), "loading hint stuck");
    // The list viewport was measured, so page jumps have a real page size.
    assert!(state.hits.command_palette_list_height > 0);
    assert!(!state.hits.command_palette_rows.is_empty());
}

#[test]
fn clicking_a_row_runs_it_and_clicking_outside_closes_the_palette() {
    let mut state = default_state();
    open(&mut state);
    type_text(&mut state, "zoom");
    compose(&mut state, 120, 32);
    let (row, _) = state.hits.command_palette_rows[0];

    let mut outcome = ClientShellInput::default();
    state.click_command_palette(row.x + 1, row.y, &mut outcome);
    assert!(matches!(
        outcome.actions.as_slice(),
        [ClientShellAction::Binding(KeybindMatch::Action(
            KeybindAction::Zoom
        ))]
    ));
    assert!(state.overlay.is_none());

    open(&mut state);
    compose(&mut state, 120, 32);
    // Inside the box but on no row: nothing happens.
    let popup = state.hits.command_palette_popup;
    let mut outcome = ClientShellInput::default();
    state.click_command_palette(popup.x, popup.y, &mut outcome);
    assert!(!outcome.repaint && outcome.actions.is_empty());
    assert!(state.overlay.is_some());

    state.click_command_palette(0, 0, &mut outcome);
    assert!(state.overlay.is_none(), "click outside did not dismiss");
    assert!(outcome.repaint && outcome.actions.is_empty());
}

#[test]
fn long_names_are_taken_as_long_as_their_scores_fit() {
    let mut state = default_state();
    let opened = open(&mut state);
    let id = list_request(&opened);
    let reply = list_of(vec![plugin_action("acme", "long", &"x".repeat(50_000))]);
    assert!(state.can_take_reply(id, &reply));
    assert!(state.handle_endpoint_result(id, reply));
    let x = PaletteKey {
        code: KeyCode::Char('x'),
        modifiers: 0,
        generated_text: None,
    };
    assert!(state.can_route_key(&x));
    assert!(!state.can_edit_query(&QueryEdit::Append("x".repeat(70_000))));
    assert!(state.can_edit_query(&QueryEdit::Clear));
}

#[test]
fn the_palette_leaves_the_rest_of_the_shell_alone() {
    let mut state = default_state();
    state.hits.tabs = vec![(Rect::new(0, 0, 8, 1), "t1".to_string())];
    open(&mut state);
    press(&mut state, KeyCode::Down);
    press(&mut state, KeyCode::Enter);
    assert_eq!(state.hits.tabs.len(), 1);
    assert_eq!(state.snapshot, Some(snapshot()));
}

#[test]
fn a_drawn_row_can_be_picked_and_run() {
    let mut state = default_state();
    open(&mut state);
    compose(&mut state, 120, 32);
    let (rect, row) = state.hits.command_palette_rows[2];
    assert!(rect.width > 0 && rect.height == 1);
    assert_eq!(row, 2);
    let expected = visible_names(&state)[2].clone();
    state.select_command_palette_row(row);
    assert_eq!(palette(&state).selected_entry().unwrap().name, expected);
    let mut outcome = ClientShellInput::default();
    state.dispatch_command_palette_entry(&mut outcome);
    assert_eq!(outcome.actions.len(), 1);
    assert!(state.overlay.is_none());
}

#[test]
fn fuzzy_score_ranks_contiguous_prefixes_above_scattered_subsequences() {
    assert!(fuzzy_score("rena", "rename-workspace").is_some());
    assert!(fuzzy_score("xyz", "rename-workspace").is_none());
    assert_eq!(fuzzy_score("", "zoom"), Some(0));
    let prefix = fuzzy_score("ren", "rename-tab").expect("prefix match");
    let scattered = fuzzy_score("ren", "reset-pane-navigation").expect("scattered match");
    assert!(
        prefix > scattered,
        "prefix {prefix} <= scattered {scattered}"
    );
}

#[test]
fn extreme_geometry_and_an_oversized_pasted_query_do_not_overflow() {
    // Every width the header derives is u16. A terminal past 10922 columns
    // overflows the 60%-of-screen popup sizing, and a pasted query wider than
    // u16::MAX overflows the counter-fit check and the cursor position.
    let mut state = default_state();
    open(&mut state);
    compose(&mut state, 20000, 12);
    assert_ne!(state.hits.command_palette_popup, Rect::empty());
    compose(&mut state, 60, 12000);
    assert_ne!(state.hits.command_palette_popup, Rect::empty());

    state.edit_command_palette_query(QueryEdit::Append("a".repeat(70_000)));
    compose(&mut state, 120, 32);
    // The palette survives it as an ordinary empty result set.
    assert!(palette(&state).filtered.is_empty());
    assert!(matches!(
        state.overlay,
        Some(ClientShellOverlay::CommandPalette(_))
    ));

    // And it still degrades gracefully at the other extreme.
    for cols in [1u16, 2, 8, 20, 41] {
        for rows in [1u16, 2, 5, 11] {
            compose(&mut state, cols, rows);
        }
    }
}

#[test]
fn only_the_current_palettes_own_plugin_list_is_applied() {
    // Close and reopen fast enough and the first open's list is still in
    // flight. It must not land on the second open's palette: it would clear a
    // spinner whose own request has not returned, and the two opens can have
    // been assembled under different sources. Only the live request applies,
    // and it applies exactly once.
    let mut state = default_state();
    let first = open(&mut state);
    press(&mut state, KeyCode::Esc);
    let second = open(&mut state);

    let actions = || {
        list_of(vec![
            plugin_action("acme", "build", "build"),
            plugin_action("acme", "deploy", "deploy"),
        ])
    };

    let baseline = palette(&state).entries.len();
    let repaint = state.handle_endpoint_result(list_request(&first), actions());
    assert!(!repaint, "a superseded list was applied");
    assert_eq!(palette(&state).entries.len(), baseline);
    assert!(
        palette(&state).loading_plugin_actions,
        "a superseded list cleared the live request's spinner"
    );

    state.handle_endpoint_result(list_request(&second), actions());
    assert_eq!(palette(&state).entries.len(), baseline + 2);
    assert!(!palette(&state).loading_plugin_actions);
}

#[test]
fn a_palette_opened_before_the_first_snapshot_does_not_claim_to_be_loading() {
    // Endpoint requests are dropped while the client has no snapshot, so a
    // palette opened during attach latency would sit on "loading plugins…"
    // forever waiting for a response that was never sent.
    let mut state = detached_state();
    assert!(state.snapshot.is_none());

    let opened = open(&mut state);
    assert!(opened.actions.is_empty(), "request sent without a snapshot");
    assert!(
        !palette(&state).loading_plugin_actions,
        "palette waits on a request that was never sent"
    );
    // Built-ins still resolve, so the palette is usable immediately.
    assert!(!palette(&state).filtered.is_empty());
}

#[test]
fn a_stale_plugin_list_cannot_smuggle_rows_past_a_disabled_source() {
    // Open A requests the list, then a config reload turns the plugin source
    // off before open B. A's in-flight response must not populate B, which was
    // deliberately assembled without plugin rows.
    let mut state = default_state();
    let first = open(&mut state);
    let stale_id = list_request(&first);
    press(&mut state, KeyCode::Esc);

    state.config.command_palette_sources.plugin = false;
    let reopened = open(&mut state);
    assert!(reopened.actions.is_empty());

    let repaint = state.handle_endpoint_result(
        stale_id,
        list_of(vec![plugin_action("acme", "build", "build")]),
    );
    assert!(!repaint, "a stale list was applied to a later palette");
    assert!(
        palette(&state)
            .entries
            .iter()
            .all(|entry| entry.source != ClientPaletteSource::Plugin),
        "plugin rows reached a palette with the plugin source disabled"
    );
}

#[test]
fn a_too_small_terminal_keeps_its_popup_clickable() {
    // The frame is drawn before the palette finds that it is too small to lay
    // out, so it still occupies screen. Reporting no popup rect would make every
    // click inside the visible box a dismiss.
    let mut state = default_state();
    open(&mut state);
    compose(&mut state, 30, 8);
    assert_ne!(
        state.hits.command_palette_popup,
        Rect::empty(),
        "a drawn palette reported no clickable region"
    );
}

#[test]
fn a_failed_list_is_reported_and_ends_the_loading() {
    let mut state = default_state();
    let opened = open(&mut state);
    let repaint = state.handle_endpoint_result(list_request(&opened), Err("gone".into()));
    assert!(repaint);
    assert!(!palette(&state).loading_plugin_actions);
    assert!(state.endpoint_error.as_deref().unwrap().contains("gone"));
}

#[test]
fn deleting_a_word_keeps_what_stands_before_it() {
    assert_eq!(delete_trailing_word("new tab"), "new ");
    assert_eq!(delete_trailing_word("new tab  "), "new ");
    assert_eq!(delete_trailing_word("tab"), "");
    assert_eq!(delete_trailing_word(""), "");

    let mut state = default_state();
    open(&mut state);
    type_text(&mut state, "new ta");
    press_with(&mut state, KeyCode::Char('w'), CONTROL);
    assert_eq!(palette(&state).query, "new ");
    press_with(&mut state, KeyCode::Char('T'), SHIFT);
    assert_eq!(palette(&state).query, "new T");
    press_with(&mut state, KeyCode::Backspace, ALT);
    assert_eq!(palette(&state).query, "new ");
    press_with(&mut state, KeyCode::Char('x'), ALT);
    assert_eq!(palette(&state).query, "new ");
    press_with(&mut state, KeyCode::Backspace, SUPER);
    assert_eq!(palette(&state).query, "");
    press(&mut state, KeyCode::Other);
    assert_eq!(palette(&state).query, "");
}

#[test]
fn half_pages_move_by_half_the_list() {
    let mut state = default_state();
    open(&mut state);
    state.hits.command_palette_list_height = 8;
    assert_eq!(state.command_palette_page(), 8);
    press_with(&mut state, KeyCode::Char('d'), CONTROL);
    assert_eq!(palette(&state).selected, 4);
    press(&mut state, KeyCode::PageDown);
    assert_eq!(palette(&state).selected, 12);
    press_with(&mut state, KeyCode::Char('u'), CONTROL);
    assert_eq!(palette(&state).selected, 8);
    state.hits.command_palette_list_height = 0;
    assert!(state.command_palette_page() >= 1);
}

// --- the drawn overlay --------------------------------------------------------

fn row_width(segments: &[(RowSpanKind, String)]) -> u16 {
    segments
        .iter()
        .map(|(_, text)| display_width(text))
        .sum::<u16>()
}

fn kind_text(segments: &[(RowSpanKind, String)], kind: RowSpanKind) -> Option<&str> {
    segments
        .iter()
        .find(|(candidate, _)| *candidate == kind)
        .map(|(_, text)| text.as_str())
}

#[test]
fn command_palette_overlay_visible_window_keeps_selection_in_view() {
    let (start, end) = visible_window(100, 10, 95);
    assert!(start <= 95 && 95 < end);
    assert_eq!(end - start, 10);
    assert_eq!(visible_window(100, 10, 0), (0, 10));
    assert_eq!(visible_window(3, 10, 0), (0, 3));
    assert_eq!(visible_window(3, 0, 0), (0, 0));
}

#[test]
fn truncate_ellipsis_caps_display_width() {
    assert_eq!(truncate_ellipsis("rename-workspace", 8), "rename-…");
    assert_eq!(truncate_ellipsis("zoom", 8), "zoom");
    // a double-width glyph consumes two columns of the budget
    assert_eq!(display_width(&truncate_ellipsis("日本語テスト", 5)), 5);
}

#[test]
fn command_palette_row_fits_all_four_fields_when_wide() {
    let segments = command_palette_row(
        "zoom",
        Some("Toggle pane zoom"),
        Some("prefix+z"),
        "built-in",
        60,
    );
    assert_eq!(row_width(&segments), 60);
    assert_eq!(kind_text(&segments, RowSpanKind::Name), Some("zoom"));
    assert_eq!(kind_text(&segments, RowSpanKind::Keybind), Some("prefix+z"));
    assert_eq!(kind_text(&segments, RowSpanKind::Tag), Some("built-in"));
    assert!(kind_text(&segments, RowSpanKind::Description)
        .expect("description column")
        .contains("Toggle pane zoom"));
}

#[test]
fn command_palette_row_description_yields_before_keybind_and_tag() {
    let segments = command_palette_row(
        "rename-workspace",
        Some("Rename the current workspace"),
        Some("prefix+,"),
        "built-in",
        34,
    );
    assert!(row_width(&segments) <= 34);
    assert_eq!(kind_text(&segments, RowSpanKind::Tag), Some("built-in"));
    assert_eq!(kind_text(&segments, RowSpanKind::Keybind), Some("prefix+,"));
    assert!(kind_text(&segments, RowSpanKind::Description).is_none());
}

#[test]
fn a_row_without_room_for_its_chord_has_no_description() {
    let row = |width: u16| {
        command_palette_row(
            "zoom",
            Some("Toggle pane zoom"),
            Some("prefix+z"),
            "built-in",
            width,
        )
    };
    assert_eq!(
        row(20),
        vec![
            (RowSpanKind::Pad, " ".to_string()),
            (RowSpanKind::Name, "zoom".to_string()),
            (RowSpanKind::Pad, " ".repeat(7)),
            (RowSpanKind::Tag, "built-in".to_string()),
        ]
    );
    for width in 0..=60u16 {
        let parts = row(width);
        if kind_text(&parts, RowSpanKind::Description).is_some() {
            assert!(kind_text(&parts, RowSpanKind::Keybind).is_some(), "{width}");
        }
        if kind_text(&parts, RowSpanKind::Keybind).is_some() {
            assert!(kind_text(&parts, RowSpanKind::Tag).is_some(), "{width}");
        }
    }
    // Without a chord the description still has its place.
    let parts = command_palette_row("zoom", Some("Toggle pane zoom"), None, "built-in", 24);
    assert!(kind_text(&parts, RowSpanKind::Description).is_some());
}

#[test]
fn command_palette_row_never_overflows_narrow_width() {
    for width in 1..=30u16 {
        let segments = command_palette_row(
            "open-notification-target",
            Some("Jump to the notification target"),
            Some("prefix+n"),
            "built-in",
            width,
        );
        assert!(
            row_width(&segments) <= width,
            "row overflowed at width {width}: {}",
            row_width(&segments)
        );
    }
}

#[test]
fn command_palette_row_blank_keybind_shows_name_and_tag_only() {
    let segments = command_palette_row("build", None, None, "custom", 40);
    assert_eq!(row_width(&segments), 40);
    assert!(kind_text(&segments, RowSpanKind::Keybind).is_none());
    assert_eq!(kind_text(&segments, RowSpanKind::Name), Some("build"));
    assert_eq!(kind_text(&segments, RowSpanKind::Tag), Some("custom"));
}

#[test]
fn position_indicator_is_one_based_and_none_when_empty() {
    assert_eq!(position_indicator(0, 63).as_deref(), Some("1/63"));
    assert_eq!(position_indicator(11, 63).as_deref(), Some("12/63"));
    assert_eq!(position_indicator(0, 0), None);
}
