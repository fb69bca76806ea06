use herdr_chrome::canvas::{Canvas, Color, DrawOp, Modifier, Palette, Rect, BOLD, ITALIC, UNDERLINED};
use herdr_chrome::client::colors::{parse_color_opt, resolve_color};
use herdr_chrome::client::status_strip::{
    base_style, fit_strip, is_enabled, render_status_strip, segment_style, segments_width,
    status_strip_width, truncate_to_columns, FittedStrip,
};
use herdr_chrome::client::{ClientShellSnapshot, ClientShellStatusSegment};
use herdr_chrome::width::display_width;

const ELLIPSIS: &str = "…";

fn content(text: &str) -> ClientShellStatusSegment {
    ClientShellStatusSegment {
        text: text.to_string(),
        separator: false,
        fg: None,
        bg: None,
        modifiers: 0,
    }
}

fn separator(text: &str) -> ClientShellStatusSegment {
    ClientShellStatusSegment {
        text: text.to_string(),
        separator: true,
        ..content(text)
    }
}

fn styled(text: &str, fg: &str) -> ClientShellStatusSegment {
    ClientShellStatusSegment {
        fg: Some(fg.to_string()),
        ..content(text)
    }
}

fn joined(fitted: &FittedStrip<'_>) -> String {
    fitted.texts().into_iter().map(|(_, text)| text).collect()
}

fn catppuccin() -> Palette {
    Palette {
        accent: Color::Rgb(0xcb, 0xa6, 0xf7),
        panel_bg: Color::Rgb(0x18, 0x18, 0x25),
        surface0: Color::Rgb(0x31, 0x32, 0x44),
        surface1: Color::Rgb(0x45, 0x47, 0x5a),
        surface_dim: Color::Rgb(0x11, 0x11, 0x1b),
        overlay0: Color::Rgb(0x6c, 0x70, 0x86),
        overlay1: Color::Rgb(0x7f, 0x84, 0x9c),
        text: Color::Rgb(0xcd, 0xd6, 0xf4),
        subtext0: Color::Rgb(0xa6, 0xad, 0xc8),
        mauve: Color::Rgb(0xca, 0xa5, 0xf6),
        teal: Color::Rgb(0x94, 0xe2, 0xd5),
        peach: Color::Rgb(0xfa, 0xb3, 0x87),
        panel_contrast_fg: Color::Rgb(0x1e, 0x1e, 0x2e),
    }
}

fn snapshot(strip: Vec<ClientShellStatusSegment>, budget: u16) -> ClientShellSnapshot {
    ClientShellSnapshot {
        tabs: vec![],
        focused_workspace_id: None,
        tab_bar_right: vec![],
        tab_bar_right_separator: String::new(),
        status_strip: strip,
        status_strip_budget: budget,
    }
}

#[test]
fn fit_keeps_everything_within_budget() {
    let segs = [content("main"), separator(" │ "), content("09:04")];
    let fitted = fit_strip(&segs, 40);
    assert_eq!(joined(&fitted), "main │ 09:04");
    assert_eq!(fitted.width(), 12);
}

#[test]
fn fit_drops_leftmost_segment_and_its_dangling_separator() {
    let segs = [content("main"), separator(" │ "), content("09:04")];
    // Budget fits only "09:04": "main" AND the now-leading " │ " both go.
    let fitted = fit_strip(&segs, 6);
    assert_eq!(joined(&fitted), "09:04");
    assert_eq!(fitted.width(), 5);
}

#[test]
fn fit_drops_until_only_the_rightmost_survives() {
    let segs = [
        content("aaaa"),
        separator(" │ "),
        content("bbbb"),
        separator(" │ "),
        content("cc"),
    ];
    assert_eq!(joined(&fit_strip(&segs, 3)), "cc");
}

#[test]
fn fit_truncates_a_lone_oversize_segment_with_an_ellipsis() {
    let segs = [content("2026-07-09")];
    let fitted = fit_strip(&segs, 5);
    let out = joined(&fitted);
    assert!(out.ends_with(ELLIPSIS), "out: {out:?}");
    assert!(display_width(&out) <= 5, "out: {out:?}");
    assert_eq!(fitted.width(), display_width(&out));
}

#[test]
fn fit_measures_display_columns_not_chars_for_wide_glyphs() {
    // Each CJK glyph is 2 columns, so four glyphs are 8 columns wide.
    let segs = [content("提交反馈")];
    assert_eq!(display_width("提交反馈"), 8);
    let out = joined(&fit_strip(&segs, 5));
    assert!(display_width(&out) <= 5, "out: {out:?}");
    assert!(out.ends_with(ELLIPSIS));
}

#[test]
fn truncation_preserves_the_survivor_style() {
    let segs = [
        styled("aaaa", "red"),
        separator(" │ "),
        styled("bbbb", "blue"),
    ];
    let palette = catppuccin();
    let base = base_style(&palette);

    let full = fit_strip(&segs, 100);
    let dropped = fit_strip(&segs, 4);
    // The rightmost survivor keeps its blue fg whether or not the leftmost
    // was dropped, because each segment carries its own folded spec.
    for fitted in [&full, &dropped] {
        let texts = fitted.texts();
        let (segment, text) = texts.last().expect("a survivor");
        assert_eq!(text, "bbbb");
        assert_eq!(segment_style(segment, base, &palette).fg, Some(Color::Blue));
    }
}

#[test]
fn theme_tokens_resolve_against_the_client_palette() {
    let mut palette = catppuccin();
    palette.accent = Color::Rgb(1, 2, 3);
    let base = base_style(&palette);

    for (token, expected) in [
        ("accent", palette.accent),
        ("mauve", palette.mauve),
        ("teal", palette.teal),
        ("peach", palette.peach),
        ("text", palette.text),
        ("surface0", palette.surface0),
    ] {
        let style = segment_style(&styled("x", token), base, &palette);
        assert_eq!(style.fg, Some(expected), "token: {token}");
    }
}

#[test]
fn ansi_names_hex_and_rgb_win_over_the_token_path() {
    let palette = catppuccin();
    let base = base_style(&palette);
    let fg = |value: &str| segment_style(&styled("x", value), base, &palette).fg;

    // These names overlap palette fields but must stay ANSI.
    assert_eq!(fg("blue"), Some(Color::Blue));
    assert_eq!(fg("green"), Some(Color::Green));
    assert_eq!(fg("red"), Some(Color::Red));
    assert_eq!(fg("yellow"), Some(Color::Yellow));
    assert_eq!(fg("cyan"), Some(Color::Cyan));
    assert_eq!(fg("#cba6f7"), Some(Color::Rgb(0xcb, 0xa6, 0xf7)));
    assert_eq!(fg("rgb(1,2,3)"), Some(Color::Rgb(1, 2, 3)));
}

#[test]
fn an_unknown_color_value_leaves_the_base_style_untouched() {
    let palette = catppuccin();
    let base = base_style(&palette);
    assert_eq!(
        segment_style(&styled("x", "notacolor"), base, &palette).fg,
        base.fg
    );
}

#[test]
fn modifier_bits_survive_the_wire_round_trip() {
    let palette = catppuccin();
    let base = base_style(&palette);
    let segment = ClientShellStatusSegment {
        modifiers: BOLD | UNDERLINED,
        ..content("x")
    };
    let style = segment_style(&segment, base, &palette);
    assert!(style.add_modifier.contains(Modifier { bits: BOLD }));
    assert!(style.add_modifier.contains(Modifier { bits: UNDERLINED }));
    assert!(!style.add_modifier.contains(Modifier { bits: ITALIC }));
}

#[test]
fn colors_are_read_strictly() {
    assert_eq!(parse_color_opt("#12345"), None);
    assert_eq!(parse_color_opt("#12345g"), None);
    assert_eq!(parse_color_opt("rgb(1,2)"), None);
    assert_eq!(parse_color_opt("rgb(1,2,256)"), None);
    assert_eq!(parse_color_opt("accent"), None);
    assert_eq!(resolve_color("accent", &catppuccin()), Some(catppuccin().accent));
    assert_eq!(resolve_color("accented", &catppuccin()), None);
}

#[test]
fn widths_add_up() {
    assert_eq!(segments_width(&[content("ab"), content("提"), separator("│")]), 5);
    assert_eq!(segments_width(&[]), 0);
    assert_eq!(display_width("ab…"), 3);
    assert_eq!(display_width(" 提"), 3);
    assert_eq!(display_width(&"a".repeat(70_000)), u16::MAX);
}

#[test]
fn texts_are_cut_to_columns() {
    assert_eq!(truncate_to_columns("abc", 3), "abc");
    assert_eq!(truncate_to_columns("abcd", 3), "ab…");
    assert_eq!(truncate_to_columns("abcd", 1), "…");
    assert_eq!(truncate_to_columns("abcd", 0), "");
    assert_eq!(truncate_to_columns("提交反馈", 4), "提…");
}

#[test]
fn the_budget_decides_whether_a_strip_is_configured() {
    assert!(is_enabled(&snapshot(vec![], 28)));
    assert!(!is_enabled(&snapshot(vec![content("main")], 0)));
    assert_eq!(status_strip_width(&snapshot(vec![content("main")], 28), 40), 4);
    assert_eq!(status_strip_width(&snapshot(vec![content("main")], 28), 3), 3);
    assert_eq!(status_strip_width(&snapshot(vec![content("main")], 2), 40), 2);
    assert_eq!(status_strip_width(&snapshot(vec![], 28), 40), 0);
}

#[test]
fn the_strip_is_drawn_from_the_left_of_its_zone() {
    let palette = catppuccin();
    let snapshot = snapshot(vec![styled("ab", "red"), separator("|"), content("c")], 28);
    let mut canvas = Canvas::new(Rect::new(0, 0, 20, 1));
    render_status_strip(&mut canvas, Rect::new(16, 0, 4, 1), &snapshot, &palette);
    let texts: Vec<(u16, &str)> = canvas
        .ops
        .iter()
        .filter_map(|op| match op {
            DrawOp::Text { x, text, .. } => Some((*x, text.as_str())),
            _ => None,
        })
        .collect();
    assert_eq!(texts, [(16, "ab"), (18, "|"), (19, "c")]);
}

#[test]
fn the_strip_never_shrinks_where_there_is_more_room() {
    let strips = [
        vec![content("main"), separator(" │ "), content("09:04")],
        vec![content("提交反馈")],
        vec![separator("|"), separator("|"), content("2026-07-09")],
        vec![],
    ];
    for strip in strips {
        let full = segments_width(&strip);
        let mut before = 0;
        for available in 0..=30u16 {
            let width = status_strip_width(&snapshot(strip.clone(), 28), available);
            assert!(width <= available.min(28));
            assert!(before <= width, "{available}");
            if full <= available.min(28) {
                assert_eq!(width, full);
            }
            before = width;
        }
    }
}
