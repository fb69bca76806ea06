use herdr_chrome::app::command_palette::SourceToggles;
use herdr_chrome::canvas::{Canvas, Color, DrawOp, Palette, Rect};
use herdr_chrome::client::tabs::{
    centered_tab_scroll, last_visible_tab, layout_tab_bar, max_tab_scroll, render_tab_bar,
    status_strip_area, tab_bar_content_area, tab_bar_status_area, tab_bar_status_width,
    tab_cap_glyphs, tab_drop_indicator_x, tab_gap, tab_label, tab_width,
};
use herdr_chrome::client::{
    ClientShellConfig, ClientShellSnapshot, ClientShellStatusSegment, ClientShellTab,
    ClientShellTabStatusSegment, ShellHitMap, TabCapStyleConfig,
};
use herdr_chrome::palette::actions::Keybinds;

fn content(text: &str) -> ClientShellStatusSegment {
    ClientShellStatusSegment {
        text: text.to_string(),
        separator: false,
        fg: None,
        bg: None,
        modifiers: 0,
    }
}

fn separator(text: &str) -> ClientShellStatusSegment {
    ClientShellStatusSegment {
        separator: true,
        ..content(text)
    }
}

fn endpoint_status_entries() -> Vec<ClientShellTabStatusSegment> {
    vec![ClientShellTabStatusSegment {
        text: "host".into(),
        accent: false,
    }]
}

fn tab(id: &str, label: &str, focused: bool) -> ClientShellTab {
    ClientShellTab {
        tab_id: id.into(),
        workspace_id: "w1".into(),
        label: label.into(),
        custom_label: true,
        focused,
        zoomed: false,
    }
}

fn snapshot() -> ClientShellSnapshot {
    ClientShellSnapshot {
        tabs: vec![tab("t1", "shell", true), tab("t2", "logs", false)],
        focused_workspace_id: Some("w1".into()),
        tab_bar_right: vec![],
        tab_bar_right_separator: String::new(),
        status_strip: vec![],
        status_strip_budget: 0,
    }
}

fn catppuccin() -> Palette {
    Palette {
        accent: Color::Rgb(0xcb, 0xa6, 0xf7),
        panel_bg: Color::Rgb(0x18, 0x18, 0x25),
        surface0: Color::Rgb(0x31, 0x32, 0x44),
        surface1: Color::Rgb(0x45, 0x47, 0x5a),
        surface_dim: Color::Rgb(0x11, 0x11, 0x1b),
        overlay0: Color::Rgb(0x6c, 0x70, 0x86),
        overlay1: Color::Rgb(0x7f, 0x84, 0x9c),
        text: Color::Rgb(0xcd, 0xd6, 0xf4),
        subtext0: Color::Rgb(0xa6, 0xad, 0xc8),
        mauve: Color::Rgb(0xca, 0xa5, 0xf6),
        teal: Color::Rgb(0x94, 0xe2, 0xd5),
        peach: Color::Rgb(0xfa, 0xb3, 0x87),
        panel_contrast_fg: Color::Rgb(0x1e, 0x1e, 0x2e),
    }
}

fn tokyo_night() -> Palette {
    Palette {
        accent: Color::Rgb(0x7a, 0xa2, 0xf7),
        ..catppuccin()
    }
}

fn config(palette: Palette) -> ClientShellConfig {
    ClientShellConfig {
        palette,
        mouse_capture: true,
        tab_style: TabCapStyleConfig::Block,
        rounded_borders: true,
        keybinds: Keybinds::unbound(),
        command_palette_sources: SourceToggles::all(),
    }
}

#[derive(Clone)]
struct Cell {
    symbol: String,
    fg: Option<Color>,
}

/// Paint the steps of one row; every character here takes one column.
fn paint(canvas: &Canvas) -> Vec<Cell> {
    let mut cells = vec![
        Cell {
            symbol: " ".into(),
            fg: None,
        };
        canvas.area.width as usize
    ];
    for op in &canvas.ops {
        match op {
            DrawOp::Fill { area, style } => {
                for x in area.x..area.x + area.width {
                    if style.fg.is_some() {
                        cells[x as usize].fg = style.fg;
                    }
                }
            }
            DrawOp::Text {
                x,
                width,
                text,
                style,
                ..
            } => {
                for (i, c) in text.chars().take(*width as usize).enumerate() {
                    if let Some(cell) = cells.get_mut(*x as usize + i) {
                        cell.symbol = c.to_string();
                        if style.fg.is_some() {
                            cell.fg = style.fg;
                        }
                    }
                }
            }
            DrawOp::Symbol {
                x, symbol, style, ..
            } => {
                cells[*x as usize].symbol = symbol.clone();
                cells[*x as usize].fg = style.fg;
            }
            DrawOp::Clear { area } | DrawOp::Panel { area, .. } => {
                for x in area.x..area.x + area.width {
                    cells[x as usize].symbol = " ".into();
                }
            }
        }
    }
    cells
}

/// Draw the bar alone and return it as text plus cells.
fn compose_tab_bar(
    projected: ClientShellSnapshot,
    cols: u16,
    palette: Palette,
) -> (String, Vec<Cell>) {
    let area = Rect::new(0, 0, cols, 1);
    let mut canvas = Canvas::new(area);
    let (mut scroll, mut reveal) = (0, true);
    let mut hits = ShellHitMap::default();
    render_tab_bar(
        &mut canvas,
        area,
        &projected,
        &config(palette),
        &mut scroll,
        &mut reveal,
        None,
        &mut hits,
    );
    assert!(!reveal);
    let cells = paint(&canvas);
    let row = cells.iter().map(|cell| cell.symbol.as_str()).collect();
    (row, cells)
}

fn tab_bar_row(projected: ClientShellSnapshot, cols: u16) -> String {
    compose_tab_bar(projected, cols, catppuccin()).0
}

/// Cell index (not byte offset) where `needle`'s symbols start on the bar.
fn cell_index(cells: &[Cell], needle: &str) -> Option<usize> {
    let symbols = needle.chars().map(String::from).collect::<Vec<_>>();
    cells.windows(symbols.len()).position(|window| {
        window
            .iter()
            .zip(&symbols)
            .all(|(cell, s)| cell.symbol == *s)
    })
}

#[test]
fn strip_renders_right_aligned_and_leaves_the_tabs_their_own_zone() {
    let mut projected = snapshot();
    projected.status_strip = vec![content("main"), separator(" │ "), content("09:04")];
    projected.status_strip_budget = 28;

    let (row, cells) = compose_tab_bar(projected, 106, catppuccin());
    // Right-aligned: the strip is the last thing on the bar.
    assert!(row.trim_end().ends_with("main │ 09:04"), "row: {row:?}");
    // The tab zone survives to the strip's left: the new-tab control is still
    // drawn, and it sits before the strip rather than being pushed off the bar.
    let new_tab = cell_index(&cells, "+").expect("new-tab control on the bar");
    let strip = cell_index(&cells, "main").expect("strip on the bar");
    assert!(new_tab < strip, "row: {row:?}");
}

#[test]
fn strip_wins_the_right_edge_over_endpoint_tab_bar_entries() {
    // Both decorations target the same zone. The strip claims it, and
    // `tab_bar_right` must then reserve and draw nothing rather than stacking.
    let mut projected = snapshot();
    projected.tab_bar_right = endpoint_status_entries();
    projected.tab_bar_right_separator = " · ".into();
    projected.status_strip = vec![content("main")];
    projected.status_strip_budget = 28;

    let row = tab_bar_row(projected, 106);
    assert!(row.contains("main"), "row: {row:?}");
    assert!(
        !row.contains("host"),
        "tab_bar_right double-stacked: {row:?}"
    );
}

#[test]
fn a_configured_strip_keeps_the_edge_while_its_segments_resolve_empty() {
    // The endpoint drops segments that resolve empty, so a strip whose only
    // `#(command)` has not run yet projects no segments at all. Ownership of
    // the right edge must follow the configured budget rather than that list,
    // or both decorations flap every time the command output goes blank.
    let mut projected = snapshot();
    projected.tab_bar_right = endpoint_status_entries();
    projected.tab_bar_right_separator = " · ".into();
    projected.status_strip = Vec::new();
    projected.status_strip_budget = 28;

    let row = tab_bar_row(projected, 106);
    assert!(
        !row.contains("host"),
        "tab_bar_right reclaimed the edge from a blank strip: {row:?}"
    );
}

#[test]
fn endpoint_tab_bar_entries_keep_the_edge_when_no_strip_is_configured() {
    let mut projected = snapshot();
    projected.tab_bar_right = endpoint_status_entries();
    projected.tab_bar_right_separator = " · ".into();
    // A budget of zero is how the endpoint reports a disabled strip.
    projected.status_strip = vec![content("main")];
    projected.status_strip_budget = 0;

    let row = tab_bar_row(projected, 106);
    assert!(row.contains("host"), "row: {row:?}");
    assert!(!row.contains("main"), "disabled strip drew anyway: {row:?}");
}

#[test]
fn a_tight_budget_drops_leftmost_segments_and_their_dangling_separator() {
    let mut projected = snapshot();
    projected.status_strip = vec![content("main"), separator(" │ "), content("09:04")];
    // Only "09:04" fits, so "main" and the now-leading " │ " both go.
    projected.status_strip_budget = 6;

    let (row, cells) = compose_tab_bar(projected, 106, catppuccin());
    assert!(row.trim_end().ends_with("09:04"), "row: {row:?}");
    assert!(!row.contains("main"), "row: {row:?}");
    // The separator went with the segment it belonged to: the columns just
    // left of the clock are blank bar, not a dangling " │ ".
    let clock = cell_index(&cells, "09:04").expect("clock on the bar");
    let before = cells[clock
        .checked_sub(3)
        .expect("clock is not at the bar's left edge")..clock]
        .iter()
        .map(|cell| cell.symbol.as_str())
        .collect::<String>();
    assert_eq!(before, "   ", "dangling separator survived: {row:?}");
}

#[test]
fn a_lone_oversize_segment_is_ellipsis_truncated_to_the_budget() {
    let mut projected = snapshot();
    projected.status_strip = vec![content("2026-07-09")];
    projected.status_strip_budget = 5;

    let row = tab_bar_row(projected, 106);
    assert!(row.contains('…'), "row: {row:?}");
    assert!(!row.contains("2026-07-09"), "row: {row:?}");
}

#[test]
fn a_narrow_bar_clamps_the_strip_below_its_configured_budget() {
    // The budget is endpoint config, but the ceiling is this client's own
    // width: a narrow client truncates without the endpoint knowing.
    let mut projected = snapshot();
    projected.status_strip = vec![content("a-very-long-status-value")];
    projected.status_strip_budget = 60;

    let wide = tab_bar_row(projected.clone(), 200);
    assert!(wide.contains("a-very-long-status-value"), "wide: {wide:?}");

    let narrow = tab_bar_row(projected, 40);
    assert!(
        !narrow.contains("a-very-long-status-value"),
        "narrow bar did not clamp: {narrow:?}"
    );
}

#[test]
fn directive_colors_resolve_against_the_clients_own_palette() {
    // The endpoint sends raw directive values, never resolved colors, so the
    // same snapshot has to paint differently under two client themes.
    let mut projected = snapshot();
    projected.status_strip = vec![ClientShellStatusSegment {
        fg: Some("accent".into()),
        ..content("STATUS")
    }];
    projected.status_strip_budget = 28;

    let strip_fg = |palette: Palette| {
        let (_, cells) = compose_tab_bar(projected.clone(), 106, palette);
        let start = cell_index(&cells, "STATUS").expect("strip text on the bar");
        (cells[start].fg, palette.accent)
    };

    let (catppuccin, catppuccin_accent) = strip_fg(catppuccin());
    assert_eq!(catppuccin, Some(catppuccin_accent));
    let (tokyo, tokyo_accent) = strip_fg(tokyo_night());
    assert_eq!(tokyo, Some(tokyo_accent));
    // The endpoint sent one snapshot; two themes painted two different colors.
    assert_ne!(catppuccin, tokyo);
}

#[test]
fn labels_get_even_padding_and_a_least_width() {
    assert_eq!(tab_width(""), 8);
    assert_eq!(tab_width("abc"), 9);
    assert_eq!(tab_width("abcd"), 8);
    assert_eq!(tab_width("abcdef"), 10);
    assert_eq!(tab_width("提交反馈"), 12);
}

#[test]
fn a_zoomed_tab_says_so() {
    let mut zoomed = tab("t", "shell", true);
    assert!(tab_label(&zoomed).contains("shell"));
    let plain = tab_label(&zoomed);
    zoomed.zoomed = true;
    assert_ne!(tab_label(&zoomed), plain);
    assert!(tab_label(&zoomed).contains("shell"));
}

#[test]
fn caps_replace_the_gap() {
    assert_eq!(tab_cap_glyphs(TabCapStyleConfig::Block), None);
    assert_eq!(tab_gap(TabCapStyleConfig::Block), 1);
    assert_eq!(tab_cap_glyphs(TabCapStyleConfig::Slant), Some(("╱", "╲")));
    assert_eq!(tab_gap(TabCapStyleConfig::Slant), 0);
    assert_eq!(tab_gap(TabCapStyleConfig::Round), 0);
    assert_eq!(tab_gap(TabCapStyleConfig::Powerline), 0);
}

#[test]
fn scrolling_is_exact() {
    let widths = [10, 10, 10, 10];
    assert_eq!(last_visible_tab(0, &widths, 25, 1), Some(2));
    assert_eq!(last_visible_tab(0, &widths, 10, 1), Some(0));
    assert_eq!(last_visible_tab(0, &widths, 0, 1), None);
    assert_eq!(last_visible_tab(4, &widths, 25, 1), None);
    assert_eq!(max_tab_scroll(&widths, 25, 1), 1);
    assert_eq!(max_tab_scroll(&widths, 100, 1), 0);
    assert_eq!(max_tab_scroll(&widths, 0, 1), 0);
    assert_eq!(centered_tab_scroll(2, &widths, 32, 1), 1);
    assert_eq!(centered_tab_scroll(0, &widths, 32, 1), 0);
    assert_eq!(centered_tab_scroll(3, &widths, 0, 1), 3);
}

#[test]
fn the_decoration_gives_way_to_the_tabs() {
    let mut projected = snapshot();
    projected.tab_bar_right = vec![
        endpoint_status_entries().remove(0),
        ClientShellTabStatusSegment {
            text: "12:00".into(),
            accent: true,
        },
    ];
    projected.tab_bar_right_separator = " · ".into();
    assert_eq!(tab_bar_status_width(&projected), 12);
    let area = Rect::new(0, 0, 30, 1);
    assert_eq!(
        tab_bar_status_area(&projected, area),
        Some(Rect::new(18, 0, 12, 1))
    );
    assert_eq!(tab_bar_content_area(&projected, area), Rect::new(0, 0, 17, 1));
    let tight = Rect::new(0, 0, 29, 1);
    assert_eq!(tab_bar_status_area(&projected, tight), None);
    assert_eq!(tab_bar_content_area(&projected, tight), tight);
}

#[test]
fn the_strip_leaves_the_tabs_their_least_width() {
    let mut projected = snapshot();
    projected.status_strip = vec![content("abcdefghij")];
    projected.status_strip_budget = 60;
    assert_eq!(
        status_strip_area(&projected, Rect::new(0, 0, 60, 1)),
        Some(Rect::new(50, 0, 10, 1))
    );
    assert_eq!(
        status_strip_area(&projected, Rect::new(0, 0, 22, 1)),
        Some(Rect::new(18, 0, 4, 1))
    );
    assert_eq!(
        tab_bar_content_area(&projected, Rect::new(0, 0, 22, 1)),
        Rect::new(0, 0, 17, 1)
    );
    assert_eq!(status_strip_area(&projected, Rect::new(0, 0, 18, 1)), None);
}

#[test]
fn the_focused_tab_is_scrolled_into_view() {
    let mut projected = snapshot();
    projected.tabs = (0..12)
        .map(|i| tab(&format!("t{i}"), &format!("tab-{i}"), i == 9))
        .collect();
    let area = Rect::new(0, 0, 40, 1);
    let layout = layout_tab_bar(&projected, area, true, TabCapStyleConfig::Block, 0, true);
    assert!(layout.scroll() > 0 && layout.scroll() <= 9);
    // Without the request to reveal it, the position stays where it was.
    let kept = layout_tab_bar(&projected, area, true, TabCapStyleConfig::Block, 2, false);
    assert_eq!(kept.scroll(), 2);
    // It never scrolls further than the last tab needs.
    let far = layout_tab_bar(&projected, area, true, TabCapStyleConfig::Block, 99, false);
    assert!(far.scroll() < 12);

    let mut canvas = Canvas::new(area);
    let (mut scroll, mut reveal) = (0, true);
    let mut hits = ShellHitMap::default();
    render_tab_bar(
        &mut canvas,
        area,
        &projected,
        &config(catppuccin()),
        &mut scroll,
        &mut reveal,
        None,
        &mut hits,
    );
    assert!(hits.tabs.iter().any(|(_, id)| id == "t9"));
    assert!(hits.tab_scroll_left.width > 0 && hits.tab_scroll_right.width > 0);
    let places: Vec<u16> = hits.tabs.iter().map(|(rect, _)| rect.x).collect();
    assert!(places.windows(2).all(|w| w[0] < w[1]));
}

#[test]
fn fitting_tabs_are_all_in_view_and_can_be_hit() {
    let projected = snapshot();
    let area = Rect::new(0, 0, 60, 1);
    let mut canvas = Canvas::new(area);
    let (mut scroll, mut reveal) = (0, false);
    let mut hits = ShellHitMap::default();
    render_tab_bar(
        &mut canvas,
        area,
        &projected,
        &config(catppuccin()),
        &mut scroll,
        &mut reveal,
        None,
        &mut hits,
    );
    assert_eq!(scroll, 0);
    // "shell" takes 9 columns, then one blank column, then "logs".
    let expected = vec![
        (Rect::new(0, 0, 9, 1), "t1".to_string()),
        (Rect::new(10, 0, 8, 1), "t2".to_string()),
    ];
    assert_eq!(hits.tabs, expected);
    let tabs: Vec<&ClientShellTab> = projected.tabs.iter().collect();
    assert_eq!(tab_drop_indicator_x(&hits, &tabs, 0), Some(0));
    assert!(tab_drop_indicator_x(&hits, &tabs, 2).is_some());
}

#[test]
fn caps_leave_the_places_to_hit() {
    let places = |style: TabCapStyleConfig| {
        let area = Rect::new(0, 0, 60, 1);
        let mut canvas = Canvas::new(area);
        let (mut scroll, mut reveal) = (0, true);
        let mut hits = ShellHitMap::default();
        let mut config = config(catppuccin());
        config.tab_style = style;
        render_tab_bar(
            &mut canvas,
            area,
            &snapshot(),
            &config,
            &mut scroll,
            &mut reveal,
            None,
            &mut hits,
        );
        let caps = canvas
            .ops
            .iter()
            .filter(|op| matches!(op, DrawOp::Symbol { .. }))
            .count();
        (hits.tabs, hits.new_tab, caps)
    };
    let round = places(TabCapStyleConfig::Round);
    assert_eq!(round, places(TabCapStyleConfig::Slant));
    assert_eq!(round, places(TabCapStyleConfig::Powerline));
    // Two tabs, a cap at each end.
    assert_eq!(round.2, 4);
    // Without the blank column the second tab starts where the first one ends.
    assert_eq!(round.0[1].0, Rect::new(9, 0, 8, 1));
    assert_eq!(places(TabCapStyleConfig::Block).2, 0);
}
