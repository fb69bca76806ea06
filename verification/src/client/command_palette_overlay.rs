//! How a client draws its command palette.

use vstd::prelude::*;

use crate::app::command_palette::source_tag;
use crate::canvas::{
    centered, clipped_columns, larger, law_centered_box_is_in_the_middle, max16, min16, panel_inner,
    popup, sat_add, sat_sub, smaller, Canvas, Color, DrawOpView, Modifier, Palette, Rect, Style,
    DIM,
};
use crate::client::command_palette::{
    entry_names, ClientCommandPaletteOverlay, ClientEntryView, ClientPaletteEntry,
    ClientPaletteView,
};
use crate::palette::rows::law_ranked_rows_are_rows;
use crate::text::{
    decimal, lemma_views_push, opt_text, owned, push_decimal, push_text, views,
};
use crate::ui::command_palette::{
    blanks, law_window_shows_the_selection, push_blanks, window,
};
use crate::width::{
    cells_width, columns, display_width, ellipsize, ellipsized, kept_before_ellipsis,
    law_cut_text_keeps_the_longest_start, plain_text, str_width, CellMeasure,
};

verus! {

// --- the window of rows ----------------------------------------------------------

/// The rows to show, from the first to before the second; none without a row.
pub open spec fn list_window(total: int, height: int, selected: int) -> (int, int) {
    if height == 0 {
        (0, 0)
    } else {
        window(total, height, selected)
    }
}

/// The row window that keeps `selected` visible.
pub fn visible_window(total: usize, height: usize, selected: usize) -> (r: (usize, usize))
    ensures
        r.0 == list_window(total as int, height as int, selected as int).0,
        r.1 == list_window(total as int, height as int, selected as int).1,
        r.0 <= r.1 <= total,
        r.1 - r.0 <= height,
{
    if height == 0 {
        return (0, 0);
    }
    if total <= height {
        return (0, total);
    }
    let wish: usize = selected.saturating_sub(height / 2);
    let start: usize = if wish < total - height {
        wish
    } else {
        total - height
    };
    (start, start + height)
}

// --- texts -----------------------------------------------------------------------

/// A text within `max` display columns: itself where it fits, else cut with a
/// closing ellipsis.
pub open spec fn shortened(text: Seq<char>, max: u16) -> Seq<char> {
    if columns(text) <= max {
        text
    } else {
        ellipsized(CellMeasure::Cell, text, max as nat)
    }
}

/// A text keeps within `max` columns when it is cut there: it is plain, or what
/// is kept of it is no wider than its characters one by one.
pub open spec fn cuts_within(text: Seq<char>, max: u16) -> bool {
    ||| plain_text(text)
    ||| str_width(kept_before_ellipsis(CellMeasure::Cell, text, max as nat)) <= cells_width(
        CellMeasure::Cell,
        kept_before_ellipsis(CellMeasure::Cell, text, max as nat),
    )
}

/// Cut a text to `max` display columns with a closing ellipsis. Columns count,
/// not characters, so that a wide glyph cannot overflow.
pub fn truncate_ellipsis(text: &str, max: u16) -> (r: String)
    ensures
        r@ == shortened(text@, max),
{
    if display_width(text) <= max {
        return owned(text);
    }
    ellipsize(CellMeasure::Cell, text, max as usize)
}

/// A cut text with its measure.
fn cut_and_measure(text: &str, max: u16) -> (r: (String, u16))
    ensures
        r.0@ == shortened(text@, max),
        r.1 == columns(r.0@),
        cuts_within(text@, max) ==> r.1 <= max,
        plain_text(text@) ==> plain_text(r.0@),
{
    let width: u16 = display_width(text);
    if width <= max {
        return (owned(text), width);
    }
    let cut = ellipsize(CellMeasure::Cell, text, max as usize);
    let cut_width: u16 = display_width(cut.as_str());
    proof {
        if max == 0 {
            assert(cut@ =~= Seq::<char>::empty());
            assert(plain_text(cut@));
        }
    }
    (cut, cut_width)
}

/// The selected row and the number of rows, counted from one.
pub open spec fn position_text(selected: int, total: int) -> Seq<char> {
    decimal((selected + 1) as nat).push('/') + decimal(total as nat)
}

/// The counter of the list; `None` when it is empty.
pub fn position_indicator(selected: usize, total: usize) -> (r: Option<String>)
    requires
        total > 0 ==> selected < usize::MAX,
    ensures
        opt_text(r) == (if total > 0 {
            Some(position_text(selected as int, total as int))
        } else {
            None
        }),
{
    if total == 0 {
        return None;
    }
    let mut r = String::new();
    push_decimal(&mut r, selected as u64 + 1);
    r.push('/');
    push_decimal(&mut r, total as u64);
    assert(r@ =~= position_text(selected as int, total as int));
    Some(r)
}

// --- one row -----------------------------------------------------------------------

/// Which column of a row a part belongs to.
#[derive(Debug, Clone, Copy, PartialEq, Eq, Structural)]
pub enum RowSpanKind {
    Name,
    Description,
    Keybind,
    Tag,
    Pad,
}

/// A text that is not empty.
pub open spec fn some_text(text: Option<Seq<char>>) -> Option<Seq<char>> {
    match text {
        Some(s) if s.len() > 0 => Some(s),
        _ => None,
    }
}

/// Columns of the chord, of the gap after it, and of the tag.
pub open spec fn wide_cluster(chord: Seq<char>, tag: Seq<char>) -> u16 {
    sat_add(sat_add(columns(chord) as int, 2) as int, columns(tag) as int)
}

/// What stands at the right of a row: whether the chord is shown, and how many
/// columns it takes. The chord goes before the tag does.
pub open spec fn right_cluster(chord: Option<Seq<char>>, tag: Seq<char>, width: u16) -> (bool, u16) {
    if chord is Some && width >= sat_add(3, wide_cluster(chord->0, tag) as int) {
        (true, wide_cluster(chord->0, tag))
    } else if width >= sat_add(3, columns(tag) as int) {
        (false, columns(tag))
    } else {
        (false, 0)
    }
}

/// The name as it is shown in `left` columns beside the right cluster.
pub open spec fn shown_name(name: Seq<char>, left: u16) -> Seq<char> {
    shortened(name, max16(sat_sub(left as int, 1), 1))
}

/// The description as it is shown in the columns that the name leaves.
pub open spec fn shown_description(description: Option<Seq<char>>, remaining: u16) -> Option<Seq<char>> {
    match some_text(description) {
        Some(text) if remaining >= 3 => Some(
            seq![' '] + shortened(text, (remaining - 1) as u16),
        ),
        _ => None,
    }
}

/// Columns of an optional text.
pub open spec fn opt_columns(text: Option<Seq<char>>) -> u16 {
    match text {
        Some(s) => columns(s),
        None => 0,
    }
}

/// The parts of a row that has something at its right. A row too narrow for its
/// chord has no description either.
pub open spec fn wide_row(
    name: Seq<char>,
    description: Option<Seq<char>>,
    chord: Option<Seq<char>>,
    tag: Seq<char>,
    width: u16,
) -> Seq<(RowSpanKind, Seq<char>)> {
    let (show_chord, right) = right_cluster(chord, tag, width);
    let left = sat_sub(width as int, 1 + right);
    let shown = shown_name(name, left);
    let remaining = sat_sub(left as int, columns(shown) as int);
    let about = if chord is Some && !show_chord {
        None
    } else {
        shown_description(description, remaining)
    };
    let slack = sat_sub(width as int, 1 + columns(shown) + opt_columns(about) + right);
    let none = Seq::<(RowSpanKind, Seq<char>)>::empty();
    seq![(RowSpanKind::Pad, blanks(1)), (RowSpanKind::Name, shown)] + (match about {
        Some(text) => seq![(RowSpanKind::Description, text)],
        None => none,
    }) + seq![(RowSpanKind::Pad, blanks(slack as nat))] + (if show_chord {
        seq![(RowSpanKind::Keybind, chord->0), (RowSpanKind::Pad, blanks(2))]
    } else {
        none
    }) + seq![(RowSpanKind::Tag, tag)]
}

/// The parts of a row within `width` columns. Where space is tight the
/// description goes first, then the chord, then the tag.
pub open spec fn row_spans(
    name: Seq<char>,
    description: Option<Seq<char>>,
    keybinding: Option<Seq<char>>,
    tag: Seq<char>,
    width: u16,
) -> Seq<(RowSpanKind, Seq<char>)> {
    let chord = some_text(keybinding);
    if width == 0 {
        Seq::empty()
    } else if right_cluster(chord, tag, width).1 == 0 {
        seq![
            (RowSpanKind::Pad, blanks(1)),
            (RowSpanKind::Name, shortened(name, (width - 1) as u16)),
        ]
    } else {
        wide_row(name, description, chord, tag, width)
    }
}

/// Columns of a part; padding is as wide as it is long.
pub open spec fn span_columns(span: (RowSpanKind, Seq<char>)) -> int {
    match span.0 {
        RowSpanKind::Pad => span.1.len() as int,
        _ => columns(span.1) as int,
    }
}

/// Columns of a row.
pub open spec fn row_columns(spans: Seq<(RowSpanKind, Seq<char>)>) -> int
    decreases spans.len(),
{
    if spans.len() == 0 {
        0
    } else {
        row_columns(spans.drop_last()) + span_columns(spans.last())
    }
}

proof fn lemma_row_columns_push(
    spans: Seq<(RowSpanKind, Seq<char>)>,
    last: (RowSpanKind, Seq<char>),
)
    ensures
        row_columns(spans.push(last)) == row_columns(spans) + span_columns(last),
{
    assert(spans.push(last).drop_last() =~= spans);
}

/// The row is no wider than sixteen bits count, and the texts of the name and
/// the description keep within the columns they get.
pub open spec fn row_keeps_within(
    name: Seq<char>,
    description: Option<Seq<char>>,
    keybinding: Option<Seq<char>>,
    tag: Seq<char>,
    width: u16,
) -> bool {
    let right = right_cluster(some_text(keybinding), tag, width).1;
    let left = sat_sub(width as int, 1 + right);
    let room = if right == 0 {
        sat_sub(width as int, 1)
    } else {
        max16(sat_sub(left as int, 1), 1)
    };
    let remaining = sat_sub(left as int, columns(shown_name(name, left)) as int);
    &&& width < u16::MAX
    &&& cuts_within(name, room)
    &&& description matches Some(text) ==> cuts_within(text, sat_sub(remaining as int, 1))
}

impl View for RowSpanKind {
    type V = RowSpanKind;

    open spec fn view(&self) -> RowSpanKind {
        *self
    }
}

fn push_span(out: &mut Vec<(RowSpanKind, String)>, kind: RowSpanKind, text: String)
    ensures
        views(final(out)@) == views(old(out)@).push((kind, text@)),
        row_columns(views(final(out)@)) == row_columns(views(old(out)@)) + span_columns(
            (kind, text@),
        ),
{
    let span = (kind, text);
    proof {
        lemma_views_push(out@, span);
        lemma_row_columns_push(views(out@), span@);
    }
    out.push(span);
}

fn blank_text(n: usize) -> (r: String)
    ensures
        r@ == blanks(n as nat),
{
    let mut r = String::new();
    push_blanks(&mut r, n);
    assert(r@ =~= blanks(n as nat));
    r
}

/// The text of an optional string slice.
pub open spec fn slice_text(text: Option<&str>) -> Option<Seq<char>> {
    match text {
        Some(s) => Some(s@),
        None => None,
    }
}

fn not_empty<'a>(text: Option<&'a str>) -> (r: Option<&'a str>)
    ensures
        slice_text(r) == some_text(slice_text(text)),
{
    match text {
        Some(s) => if s.is_empty() {
            None
        } else {
            Some(s)
        },
        None => None,
    }
}

fn as_slice_text<'a>(text: &'a Option<String>) -> (r: Option<&'a str>)
    ensures
        slice_text(r) == opt_text(*text),
{
    match text {
        Some(s) => Some(s.as_str()),
        None => None,
    }
}

/// The description of a row with its measure, in the columns that the name
/// leaves.
fn cut_description(description: Option<&str>, remaining: u16) -> (r: Option<(String, u16)>)
    ensures
        match r {
            Some(cut) => shown_description(slice_text(description), remaining) == Some(cut.0@)
                && cut.1 == columns(cut.0@),
            None => shown_description(slice_text(description), remaining) is None,
        },
        r matches Some(cut) ==> (slice_text(description) matches Some(text) ==> cuts_within(
            text,
            sat_sub(remaining as int, 1),
        )) ==> cut.1 <= remaining,
{
    if remaining < 3 {
        return None;
    }
    match not_empty(description) {
        Some(text) => {
            let (cut, cut_width) = cut_and_measure(text, remaining - 1);
            let mut segment = owned(" ");
            push_text(&mut segment, cut.as_str());
            proof {
                reveal_strlit(" ");
                assert(segment@ =~= seq![' '] + cut@);
                assert(segment@.drop_first() =~= cut@);
            }
            let width: u16 = display_width(segment.as_str());
            Some((segment, width))
        },
        None => None,
    }
}

/// Columns left over in a row.
fn slack_of(width: u16, shown: u16, about: u16, right: u16) -> (r: u16)
    ensures
        r == sat_sub(width as int, 1 + shown + about + right),
{
    let used: u32 = 1 + shown as u32 + about as u32 + right as u32;
    if used >= width as u32 {
        0
    } else {
        (width as u32 - used) as u16
    }
}

/// Lay out a row that has something at its right.
fn lay_wide_row(
    name: &str,
    description: Option<&str>,
    chord: Option<&str>,
    show_chord: bool,
    right: u16,
    tag: &str,
    width: u16,
) -> (out: Vec<(RowSpanKind, String)>)
    requires
        (show_chord, right) == right_cluster(slice_text(chord), tag@, width),
        right > 0,
        width > 0,
    ensures
        views(out@) == wide_row(name@, slice_text(description), slice_text(chord), tag@, width),
        ({
            let left = sat_sub(width as int, 1 + right);
            let remaining = sat_sub(left as int, columns(shown_name(name@, left)) as int);
            width < u16::MAX && cuts_within(name@, max16(sat_sub(left as int, 1), 1)) && (
            slice_text(description) matches Some(text) ==> cuts_within(
                text,
                sat_sub(remaining as int, 1),
            )) ==> row_columns(views(out@)) == width
        }),
{
    let mut out: Vec<(RowSpanKind, String)> = Vec::new();
    assert(views(out@) =~= Seq::<(RowSpanKind, Seq<char>)>::empty());
    let ghost none = Seq::<(RowSpanKind, Seq<char>)>::empty();
    let left: u16 = width.saturating_sub(1).saturating_sub(right);
    push_span(&mut out, RowSpanKind::Pad, blank_text(1));
    let (shown, shown_width) = cut_and_measure(name, larger(left.saturating_sub(1), 1));
    push_span(&mut out, RowSpanKind::Name, shown);
    let ghost part1 = seq![
        (RowSpanKind::Pad, blanks(1)),
        (RowSpanKind::Name, shown_name(name@, left)),
    ];
    assert(views(out@) =~= part1);
    let remaining: u16 = left.saturating_sub(shown_width);
    let ghost about = if chord is Some && !show_chord {
        None
    } else {
        shown_description(slice_text(description), remaining)
    };
    let mut about_width: u16 = 0;
    if chord.is_none() || show_chord {
        if let Some((segment, segment_width)) = cut_description(description, remaining) {
            about_width = segment_width;
            push_span(&mut out, RowSpanKind::Description, segment);
        }
    }
    let ghost part2 = part1 + (match about {
        Some(text) => seq![(RowSpanKind::Description, text)],
        None => none,
    });
    assert(views(out@) =~= part2);
    assert(about_width == opt_columns(about));
    let slack: u16 = slack_of(width, shown_width, about_width, right);
    push_span(&mut out, RowSpanKind::Pad, blank_text(slack as usize));
    let ghost part3 = part2 + seq![(RowSpanKind::Pad, blanks(slack as nat))];
    assert(views(out@) =~= part3);
    if let Some(text) = chord {
        if show_chord {
            push_span(&mut out, RowSpanKind::Keybind, owned(text));
            push_span(&mut out, RowSpanKind::Pad, blank_text(2));
        }
    }
    let ghost part4 = part3 + (if show_chord {
        seq![(RowSpanKind::Keybind, slice_text(chord)->0), (RowSpanKind::Pad, blanks(2))]
    } else {
        none
    });
    assert(views(out@) =~= part4);
    push_span(&mut out, RowSpanKind::Tag, owned(tag));
    assert(views(out@) =~= part4 + seq![(RowSpanKind::Tag, tag@)]);
    out
}

/// Lay one row out. The parts fill `width` columns exactly where something
/// stands at the right, and never exceed it; texts whose cut is wider than its
/// characters one by one are excepted.
pub fn command_palette_row(
    name: &str,
    description: Option<&str>,
    keybinding: Option<&str>,
    tag: &str,
    width: u16,
) -> (r: Vec<(RowSpanKind, String)>)
    ensures
        views(r@) == row_spans(
            name@,
            slice_text(description),
            slice_text(keybinding),
            tag@,
            width,
        ),
        row_keeps_within(name@, slice_text(description), slice_text(keybinding), tag@, width)
            ==> row_columns(views(r@)) <= width,
        row_keeps_within(name@, slice_text(description), slice_text(keybinding), tag@, width)
            && right_cluster(some_text(slice_text(keybinding)), tag@, width).1 > 0
            ==> row_columns(views(r@)) == width,
{
    let mut out: Vec<(RowSpanKind, String)> = Vec::new();
    assert(views(out@) =~= Seq::<(RowSpanKind, Seq<char>)>::empty());
    if width == 0 {
        return out;
    }
    let tag_width: u16 = display_width(tag);
    let chord = not_empty(keybinding);
    let chord_width: u16 = match chord {
        Some(text) => display_width(text),
        None => 0,
    };
    let wide: u16 = chord_width.saturating_add(2).saturating_add(tag_width);
    let show_chord = chord.is_some() && width >= 3u16.saturating_add(wide);
    let right: u16 = if show_chord {
        wide
    } else if width >= 3u16.saturating_add(tag_width) {
        tag_width
    } else {
        0
    };
    assert((show_chord, right) == right_cluster(slice_text(chord), tag@, width));
    if right > 0 {
        return lay_wide_row(name, description, chord, show_chord, right, tag, width);
    }
    push_span(&mut out, RowSpanKind::Pad, blank_text(1));
    let (shown, shown_width) = cut_and_measure(name, width - 1);
    push_span(&mut out, RowSpanKind::Name, shown);
    assert(views(out@) =~= row_spans(
        name@,
        slice_text(description),
        slice_text(keybinding),
        tag@,
        width,
    ));
    out
}

// --- drawing -------------------------------------------------------------------------

/// What drawing the overlay leaves for the mouse and the cursor.
#[derive(Debug)]
pub struct OverlayRender {
    pub command_palette_popup: Rect,
    pub command_palette_rows: Vec<(Rect, usize)>,
    pub command_palette_list_height: usize,
    pub cursor: Option<CursorState>,
}

/// Where the cursor stands.
#[derive(Debug, Clone, Copy, PartialEq, Eq, Structural)]
pub struct CursorState {
    pub x: u16,
    pub y: u16,
    pub visible: bool,
    pub shape: u8,
}

/// Six tenths of a length.
pub open spec fn six_tenths(available: u16) -> u16 {
    (available * 6 / 10) as u16
}

fn scale_down(available: u16) -> (r: u16)
    ensures
        r == six_tenths(available),
{
    (available as u32 * 6 / 10) as u16
}

/// The palette's box: six tenths of the screen, not too small, in the middle.
pub open spec fn palette_box(area: Rect) -> Option<Rect> {
    centered(area, max16(six_tenths(area.width), 40), max16(six_tenths(area.height), 10))
}

/// The style that everything in the box starts from.
pub open spec fn base_look(palette: Palette) -> Style {
    Style::plain().over(palette.panel_bg).removing(Modifier { bits: DIM })
}

/// The styles of a row: of its name, of its description and tag, of its chord.
pub open spec fn row_look(selected: bool, palette: Palette) -> (Style, Style, Style) {
    let base = base_look(palette);
    if selected {
        let bright = base.in_color(palette.panel_contrast_fg).over(palette.accent);
        (bright, bright, bright)
    } else {
        (
            base.in_color(palette.subtext0),
            base.in_color(palette.overlay0),
            base.in_color(palette.overlay1),
        )
    }
}

/// The style of a part of a row.
pub open spec fn span_style(kind: RowSpanKind, look: (Style, Style, Style)) -> Style {
    match kind {
        RowSpanKind::Name | RowSpanKind::Pad => look.0,
        RowSpanKind::Description | RowSpanKind::Tag => look.1,
        RowSpanKind::Keybind => look.2,
    }
}

/// The column after the first `n` parts drawn from `x`.
pub open spec fn span_x(spans: Seq<(RowSpanKind, Seq<char>)>, x: u16, right: u16, n: int) -> u16
    decreases n,
{
    if n <= 0 {
        x
    } else {
        let at = span_x(spans, x, right, n - 1);
        sat_add(at as int, clipped_columns(at, right, spans[n - 1].1) as int)
    }
}

/// The steps that draw the parts of a row.
pub open spec fn spans_steps(
    spans: Seq<(RowSpanKind, Seq<char>)>,
    x: u16,
    y: u16,
    right: u16,
    look: (Style, Style, Style),
) -> Seq<DrawOpView> {
    Seq::new(
        spans.len(),
        |i: int|
            DrawOpView::Text {
                x: span_x(spans, x, right, i),
                y,
                width: clipped_columns(span_x(spans, x, right, i), right, spans[i].1),
                text: spans[i].1,
                style: span_style(spans[i].0, look),
            },
    )
}

/// The steps that draw one row.
pub open spec fn row_steps(entry: ClientEntryView, selected: bool, rect: Rect, palette: Palette) -> Seq<
    DrawOpView,
> {
    let look = row_look(selected, palette);
    let spans = row_spans(
        entry.name,
        entry.description,
        entry.keybinding,
        source_tag(entry.source),
        rect.width,
    );
    seq![DrawOpView::Fill { area: rect, style: look.0 }] + spans_steps(
        spans,
        rect.x,
        rect.y,
        rect.right_edge(),
        look,
    )
}

fn draw_row(
    canvas: &mut Canvas,
    entry: &ClientPaletteEntry,
    selected: bool,
    rect: Rect,
    palette: &Palette,
)
    ensures
        final(canvas).area == old(canvas).area,
        final(canvas)@ == old(canvas)@ + row_steps(entry@, selected, rect, *palette),
{
    let ghost before = canvas@;
    let base = Style::new().bg(palette.panel_bg).remove_modifier(Modifier { bits: DIM });
    let bright = base.fg(palette.panel_contrast_fg).bg(palette.accent);
    let look = if selected {
        (bright, bright, bright)
    } else {
        (base.fg(palette.subtext0), base.fg(palette.overlay0), base.fg(palette.overlay1))
    };
    canvas.set_style(rect, look.0);
    let spans = command_palette_row(
        entry.name.as_str(),
        as_slice_text(&entry.description),
        as_slice_text(&entry.keybinding),
        entry.source.tag(),
        rect.width,
    );
    let right: u16 = rect.right();
    let ghost parts = views(spans@);
    let ghost steps = spans_steps(parts, rect.x, rect.y, right, look);
    let ghost filled = canvas@;
    let mut x: u16 = rect.x;
    let mut i: usize = 0;
    assert(filled + steps.take(0) =~= filled);
    while i < spans.len()
        invariant
            canvas.area == old(canvas).area,
            i <= spans@.len(),
            parts == views(spans@),
            steps == spans_steps(parts, rect.x, rect.y, right, look),
            x == span_x(parts, rect.x, right, i as int),
            canvas@ == filled + steps.take(i as int),
        decreases spans@.len() - i,
    {
        let style = match spans[i].0 {
            RowSpanKind::Name => look.0,
            RowSpanKind::Pad => look.0,
            RowSpanKind::Description => look.1,
            RowSpanKind::Tag => look.1,
            RowSpanKind::Keybind => look.2,
        };
        proof {
            assert(parts[i as int] == spans@[i as int]@);
            assert(steps.take(i as int + 1) =~= steps.take(i as int).push(steps[i as int]));
            assert((filled + steps.take(i as int)).push(steps[i as int]) =~= filled + steps.take(
                i as int + 1,
            ));
        }
        x = canvas.put_segment(x, rect.y, right, spans[i].1.as_str(), style);
        i = i + 1;
    }
    assert(steps.take(i as int) =~= steps);
    assert(canvas@ =~= before + row_steps(entry@, selected, rect, *palette));
}

/// The row at a place of the list.
pub open spec fn row_at(palette: ClientPaletteView, place: int) -> Option<ClientEntryView> {
    if 0 <= place < palette.filtered.len() && palette.filtered[place] < palette.entries.len() {
        Some(palette.entries[palette.filtered[place] as int])
    } else {
        None
    }
}

/// The cells of the `n`th row in view.
pub open spec fn row_rect(body: Rect, n: int) -> Rect {
    Rect::at(body.x, sat_add(body.y as int, n), body.width, 1)
}

/// The steps that draw the first `n` rows of a window.
pub open spec fn rows_steps(
    state: ClientPaletteView,
    body: Rect,
    start: int,
    n: int,
    palette: Palette,
) -> Seq<DrawOpView>
    decreases n,
{
    if n <= 0 {
        Seq::empty()
    } else {
        let before = rows_steps(state, body, start, n - 1, palette);
        match row_at(state, start + n - 1) {
            Some(entry) => before + row_steps(
                entry,
                start + n - 1 == state.selected,
                row_rect(body, n - 1),
                palette,
            ),
            None => before,
        }
    }
}

/// Where the mouse can hit the first `n` rows of a window.
pub open spec fn rows_hits(state: ClientPaletteView, body: Rect, start: int, n: int) -> Seq<
    (Rect, usize),
>
    decreases n,
{
    if n <= 0 {
        Seq::empty()
    } else {
        let before = rows_hits(state, body, start, n - 1);
        match row_at(state, start + n - 1) {
            Some(_) => before.push((row_rect(body, n - 1), (start + n - 1) as usize)),
            None => before,
        }
    }
}

fn draw_rows(
    canvas: &mut Canvas,
    state: &ClientCommandPaletteOverlay,
    body: Rect,
    palette: &Palette,
) -> (hits: Vec<(Rect, usize)>)
    ensures
        final(canvas).area == old(canvas).area,
        ({
            let shown = list_window(
                state@.filtered.len() as int,
                body.height as int,
                state@.selected as int,
            );
            &&& final(canvas)@ == old(canvas)@ + rows_steps(
                state@,
                body,
                shown.0,
                shown.1 - shown.0,
                *palette,
            )
            &&& hits@ == rows_hits(state@, body, shown.0, shown.1 - shown.0)
        }),
{
    let ghost before = canvas@;
    let ghost view = state@;
    let total: usize = state.filtered.len();
    let shown = visible_window(total, body.height as usize, state.selected);
    let count: usize = shown.1 - shown.0;
    let mut hits: Vec<(Rect, usize)> = Vec::new();
    let mut n: usize = 0;
    proof {
        assert(before + rows_steps(view, body, shown.0 as int, 0, *palette) =~= before);
        assert(hits@ =~= rows_hits(view, body, shown.0 as int, 0));
    }
    while n < count
        invariant
            canvas.area == old(canvas).area,
            view == state@,
            total == state.filtered@.len(),
            shown.0 <= shown.1 <= total,
            count == shown.1 - shown.0,
            count <= body.height,
            n <= count,
            canvas@ == before + rows_steps(view, body, shown.0 as int, n as int, *palette),
            hits@ == rows_hits(view, body, shown.0 as int, n as int),
        decreases count - n,
    {
        let place: usize = shown.0 + n;
        let i: usize = state.filtered[place];
        let ghost drawn = rows_steps(view, body, shown.0 as int, n as int, *palette);
        if i < state.entries.len() {
            let rect = Rect::new(body.x, body.y.saturating_add(n as u16), body.width, 1);
            assert(view.entries[i as int] == state.entries@[i as int]@);
            hits.push((rect, place));
            draw_row(canvas, &state.entries[i], place == state.selected, rect, palette);
            assert(canvas@ =~= before + (drawn + row_steps(
                view.entries[i as int],
                place == view.selected,
                rect,
                *palette,
            )));
        }
        n = n + 1;
    }
    hits
}

/// The query with its prompt.
pub open spec fn query_line(query: Seq<char>) -> Seq<char> {
    " > "@ + query
}

/// The note beside the query: that plugins are loading, or the counter.
pub open spec fn header_note(state: ClientPaletteView) -> Option<Seq<char>> {
    if state.loading {
        Some("loading plugins\u{2026}"@)
    } else if state.filtered.len() > 0 {
        Some(position_text(state.selected as int, state.filtered.len() as int))
    } else {
        None
    }
}

/// The steps that draw the query and the note beside it. The query wins: a note
/// that would collide with it is left out.
pub open spec fn header_steps(state: ClientPaletteView, header: Rect, palette: Palette) -> Seq<
    DrawOpView,
> {
    let base = base_look(palette);
    let query = query_line(state.query);
    let top = seq![
        DrawOpView::Text {
            x: header.x,
            y: header.y,
            width: header.width,
            text: query,
            style: base.in_color(palette.text),
        },
    ];
    match header_note(state) {
        Some(note) if header.width > sat_add(columns(query) as int, columns(note) as int) => top
            + seq![
            DrawOpView::Text {
                x: sat_sub(
                    header.right_edge() as int,
                    min16(columns(note), header.width) as int,
                ),
                y: header.y,
                width: min16(columns(note), header.width),
                text: note,
                style: base.in_color(palette.overlay0),
            },
        ],
        _ => top,
    }
}

fn draw_header(
    canvas: &mut Canvas,
    state: &ClientCommandPaletteOverlay,
    header: Rect,
    palette: &Palette,
) -> (query_width: u16)
    requires
        !state@.loading && state@.filtered.len() > 0 ==> state@.selected < usize::MAX,
    ensures
        final(canvas).area == old(canvas).area,
        final(canvas)@ == old(canvas)@ + header_steps(state@, header, *palette),
        query_width == columns(query_line(state@.query)),
{
    let ghost before = canvas@;
    let base = Style::new().bg(palette.panel_bg).remove_modifier(Modifier { bits: DIM });
    let mut query = owned(" > ");
    push_text(&mut query, state.query.as_str());
    let query_width: u16 = display_width(query.as_str());
    canvas.put_text(
        header.x,
        header.y,
        header.width,
        query.as_str(),
        base.fg(palette.text),
    );
    let note = if state.loading_plugin_actions {
        Some(owned("loading plugins\u{2026}"))
    } else {
        position_indicator(state.selected, state.filtered.len())
    };
    if let Some(text) = note {
        if header.width > query_width.saturating_add(display_width(text.as_str())) {
            canvas.put_right_text(header, header.y, text.as_str(), base.fg(palette.overlay0));
        }
    }
    assert(canvas@ =~= before + header_steps(state@, header, *palette));
    query_width
}

/// A line of `n` dashes.
pub open spec fn rule(n: nat) -> Seq<char> {
    Seq::new(n, |i: int| '\u{2500}')
}

fn rule_text(n: usize) -> (r: String)
    ensures
        r@ == rule(n as nat),
{
    let mut r = String::new();
    let mut i: usize = 0;
    assert(r@ =~= rule(0));
    while i < n
        invariant
            i <= n,
            r@ == rule(i as nat),
        decreases n - i,
    {
        r.push('\u{2500}');
        i = i + 1;
        assert(rule((i - 1) as nat).push('\u{2500}') =~= rule(i as nat));
    }
    r
}

/// The note that nothing matches.
pub open spec fn no_match_line(query: Seq<char>) -> Seq<char> {
    (" no commands match \""@ + query).push('"')
}

/// The list part of the box.
pub open spec fn list_area(inner: Rect) -> Rect {
    Rect::at(inner.x, sat_add(inner.y as int, 2), inner.width, sat_sub(inner.height as int, 3))
}

/// The steps that draw the list.
pub open spec fn list_steps(state: ClientPaletteView, body: Rect, palette: Palette) -> Seq<
    DrawOpView,
> {
    if state.filtered.len() == 0 {
        seq![
            DrawOpView::Text {
                x: body.x,
                y: body.y,
                width: body.width,
                text: no_match_line(state.query),
                style: base_look(palette).in_color(palette.overlay0),
            },
        ]
    } else {
        let shown = list_window(
            state.filtered.len() as int,
            body.height as int,
            state.selected as int,
        );
        rows_steps(state, body, shown.0, shown.1 - shown.0, palette)
    }
}

/// The line of hints.
pub open spec fn hints() -> Seq<char> {
    " filter type \u{b7} move \u{2191}\u{2193}/ctrl+n/p \u{b7} page pgup/pgdn \u{b7} run enter \u{b7} close esc"@
}

/// The step that draws a line across the box.
pub open spec fn line_step(inner: Rect, y: u16, text: Seq<char>, style: Style) -> DrawOpView {
    DrawOpView::Text { x: inner.x, y, width: inner.width, text, style }
}

/// The header line of the box.
pub open spec fn header_area(inner: Rect) -> Rect {
    Rect::at(inner.x, inner.y, inner.width, 1)
}

/// The steps that fill the box.
pub open spec fn box_steps(state: ClientPaletteView, inner: Rect, palette: Palette) -> Seq<
    DrawOpView,
> {
    let base = base_look(palette);
    header_steps(state, header_area(inner), palette) + seq![
        line_step(
            inner,
            sat_add(inner.y as int, 1),
            rule(inner.width as nat),
            base.in_color(palette.surface1),
        ),
    ] + list_steps(state, list_area(inner), palette) + seq![
        line_step(
            inner,
            sat_sub(inner.bottom_edge() as int, 1),
            hints(),
            base.in_color(palette.overlay0),
        ),
    ]
}

/// The box has room for a header and a row.
pub open spec fn is_roomy(inner: Rect) -> bool {
    inner.width >= 12 && inner.height >= 4
}

/// The steps that draw the palette.
pub open spec fn overlay_steps(
    area: Rect,
    state: ClientPaletteView,
    palette: Palette,
    rounded: bool,
) -> Seq<DrawOpView> {
    match palette_box(area) {
        Some(outer) => match panel_inner(outer) {
            Some(inner) => {
                let panel = seq![
                    DrawOpView::Panel {
                        area: outer,
                        border: palette.accent,
                        background: palette.panel_bg,
                        rounded,
                    },
                ];
                if is_roomy(inner) {
                    panel + box_steps(state, inner, palette)
                } else {
                    panel
                }
            },
            None => Seq::empty(),
        },
        None => Seq::empty(),
    }
}

/// Where the cursor stands behind the query.
pub open spec fn query_cursor(state: ClientPaletteView, header: Rect) -> CursorState {
    CursorState {
        x: min16(
            sat_add(header.x as int, columns(query_line(state.query)) as int),
            sat_sub(header.right_edge() as int, 1),
        ),
        y: header.y,
        visible: true,
        shape: 0,
    }
}

/// What drawing the palette leaves for the mouse and the cursor. A box that is
/// too small for rows can still be hit.
pub open spec fn overlay_hits(area: Rect, state: ClientPaletteView, r: Option<OverlayRender>) -> bool {
    match palette_box(area) {
        Some(outer) => match panel_inner(outer) {
            Some(inner) => r matches Some(render) && {
                let body = list_area(inner);
                let shown = list_window(
                    state.filtered.len() as int,
                    body.height as int,
                    state.selected as int,
                );
                &&& render.command_palette_popup == outer
                &&& render.command_palette_rows@ == (if is_roomy(inner) {
                    rows_hits(state, body, shown.0, shown.1 - shown.0)
                } else {
                    Seq::empty()
                })
                &&& render.command_palette_list_height == (if is_roomy(inner) {
                    body.height as int
                } else {
                    0
                })
                &&& render.cursor == (if is_roomy(inner) {
                    Some(query_cursor(state, header_area(inner)))
                } else {
                    None
                })
            },
            None => r is None,
        },
        None => r is None,
    }
}

fn draw_list(
    canvas: &mut Canvas,
    state: &ClientCommandPaletteOverlay,
    body: Rect,
    palette: &Palette,
) -> (hits: Vec<(Rect, usize)>)
    ensures
        final(canvas).area == old(canvas).area,
        final(canvas)@ == old(canvas)@ + list_steps(state@, body, *palette),
        ({
            let shown = list_window(
                state@.filtered.len() as int,
                body.height as int,
                state@.selected as int,
            );
            hits@ == rows_hits(state@, body, shown.0, shown.1 - shown.0)
        }),
{
    let ghost before = canvas@;
    if state.filtered.len() == 0 {
        let mut note = owned(" no commands match \"");
        push_text(&mut note, state.query.as_str());
        note.push('"');
        let base = Style::new().bg(palette.panel_bg).remove_modifier(Modifier { bits: DIM });
        canvas.put_text(
            body.x,
            body.y,
            body.width,
            note.as_str(),
            base.fg(palette.overlay0),
        );
        assert(canvas@ =~= before + list_steps(state@, body, *palette));
        let hits: Vec<(Rect, usize)> = Vec::new();
        assert(hits@ =~= rows_hits(state@, body, 0, 0));
        return hits;
    }
    draw_rows(canvas, state, body, palette)
}

/// Draw the palette: a box with the query, the rows in view and a line of hints.
pub fn render_command_palette_overlay(
    canvas: &mut Canvas,
    state: &ClientCommandPaletteOverlay,
    palette: &Palette,
    rounded: bool,
) -> (r: Option<OverlayRender>)
    requires
        !state@.loading && state@.filtered.len() > 0 ==> state@.selected < usize::MAX,
    ensures
        final(canvas).area == old(canvas).area,
        final(canvas)@ == old(canvas)@ + overlay_steps(
            old(canvas).area,
            state@,
            *palette,
            rounded,
        ),
        overlay_hits(old(canvas).area, state@, r),
{
    let ghost before = canvas@;
    let area = canvas.area;
    let outer = match popup(
        area,
        larger(scale_down(area.width), 40),
        larger(scale_down(area.height), 10),
    ) {
        Some(outer) => outer,
        None => {
            assert(before + overlay_steps(area, state@, *palette, rounded) =~= before);
            return None;
        },
    };
    let inner = match canvas.panel(outer, palette.accent, palette.panel_bg, rounded) {
        Some(inner) => inner,
        None => {
            assert(before + overlay_steps(area, state@, *palette, rounded) =~= before);
            return None;
        },
    };
    let ghost panel = seq![
        DrawOpView::Panel {
            area: outer,
            border: palette.accent,
            background: palette.panel_bg,
            rounded,
        },
    ];
    assert(canvas@ =~= before + panel);
    if inner.width < 12 || inner.height < 4 {
        let rows: Vec<(Rect, usize)> = Vec::new();
        assert(rows@ =~= Seq::<(Rect, usize)>::empty());
        return Some(
            OverlayRender {
                command_palette_popup: outer,
                command_palette_rows: rows,
                command_palette_list_height: 0,
                cursor: None,
            },
        );
    }
    let base = Style::new().bg(palette.panel_bg).remove_modifier(Modifier { bits: DIM });
    let header = Rect::new(inner.x, inner.y, inner.width, 1);
    let query_width: u16 = draw_header(canvas, state, header, palette);
    canvas.put_text(
        inner.x,
        inner.y.saturating_add(1),
        inner.width,
        rule_text(inner.width as usize).as_str(),
        base.fg(palette.surface1),
    );
    let body = Rect::new(
        inner.x,
        inner.y.saturating_add(2),
        inner.width,
        inner.height - 3,
    );
    let rows = draw_list(canvas, state, body, palette);
    canvas.put_text(
        inner.x,
        inner.bottom().saturating_sub(1),
        inner.width,
        " filter type \u{b7} move \u{2191}\u{2193}/ctrl+n/p \u{b7} page pgup/pgdn \u{b7} run enter \u{b7} close esc",
        base.fg(palette.overlay0),
    );
    assert(canvas@ =~= before + (panel + box_steps(state@, inner, *palette)));
    Some(
        OverlayRender {
            command_palette_popup: outer,
            command_palette_rows: rows,
            command_palette_list_height: body.height as usize,
            cursor: Some(
                CursorState {
                    x: smaller(
                        header.x.saturating_add(query_width),
                        header.right().saturating_sub(1),
                    ),
                    y: header.y,
                    visible: true,
                    shape: 0,
                },
            ),
        },
    )
}

// --- laws ------------------------------------------------------------------------------

/// A row has a part of a kind.
pub open spec fn has_part(spans: Seq<(RowSpanKind, Seq<char>)>, kind: RowSpanKind) -> bool {
    exists|i: int| 0 <= i < spans.len() && (#[trigger] spans[i]).0 == kind
}

/// Where space is tight the description yields first and the chord next: a row
/// that has a chord to show describes itself only beside it, a chord stands only
/// beside the tag, and the name is always there.
pub proof fn law_description_yields_first(
    name: Seq<char>,
    description: Option<Seq<char>>,
    keybinding: Option<Seq<char>>,
    tag: Seq<char>,
    width: u16,
)
    ensures
        ({
            let spans = row_spans(name, description, keybinding, tag, width);
            &&& has_part(spans, RowSpanKind::Description) && some_text(keybinding) is Some
                ==> has_part(spans, RowSpanKind::Keybind)
            &&& has_part(spans, RowSpanKind::Keybind) || has_part(spans, RowSpanKind::Description)
                ==> has_part(spans, RowSpanKind::Tag)
            &&& width > 0 ==> has_part(spans, RowSpanKind::Name)
        }),
{
    let spans = row_spans(name, description, keybinding, tag, width);
    let chord = some_text(keybinding);
    if width > 0 {
        assert(spans[1].0 == RowSpanKind::Name);
        if right_cluster(chord, tag, width).1 > 0 {
            assert(spans.last().0 == RowSpanKind::Tag);
            assert(spans[spans.len() - 1] == spans.last());
            if right_cluster(chord, tag, width).0 {
                assert(spans[spans.len() - 3].0 == RowSpanKind::Keybind);
            }
        }
    }
}

proof fn lemma_rows_hits(state: ClientPaletteView, body: Rect, start: int, n: int)
    requires
        state.is_filtered(),
        0 <= start,
        0 <= n,
        start + n <= state.filtered.len(),
    ensures
        rows_hits(state, body, start, n).len() == n,
        forall|k: int|
            0 <= k < n ==> #[trigger] rows_hits(state, body, start, n)[k] == (
                row_rect(body, k),
                (start + k) as usize,
            ),
    decreases n,
{
    if n > 0 {
        lemma_rows_hits(state, body, start, n - 1);
        law_ranked_rows_are_rows(entry_names(state.entries), state.query, state.filtered);
        assert(row_at(state, start + n - 1) is Some);
    }
}

/// The rows in view stand one below the other inside the list, each can be hit,
/// and the selected row is among them.
pub proof fn law_selected_row_is_in_view(state: ClientPaletteView, body: Rect)
    requires
        state.sound(),
        state.filtered.len() > 0,
        body.height > 0,
        body.y + body.height <= u16::MAX,
        body.x + body.width <= u16::MAX,
    ensures
        ({
            let shown = list_window(
                state.filtered.len() as int,
                body.height as int,
                state.selected as int,
            );
            let hits = rows_hits(state, body, shown.0, shown.1 - shown.0);
            &&& hits.len() <= body.height
            &&& shown.0 <= state.selected < shown.1
            &&& hits[state.selected - shown.0].1 == state.selected
            &&& forall|k: int|
                0 <= k < hits.len() ==> {
                    &&& (#[trigger] hits[k]).1 == shown.0 + k
                    &&& hits[k].0.y == body.y + k
                    &&& hits[k].0.x == body.x
                    &&& hits[k].0.width == body.width
                    &&& hits[k].0.bottom_edge() <= body.bottom_edge()
                }
        }),
{
    let total = state.filtered.len() as int;
    let height = body.height as int;
    let shown = list_window(total, height, state.selected as int);
    law_window_shows_the_selection(total, height, state.selected as int);
    lemma_rows_hits(state, body, shown.0, shown.1 - shown.0);
    law_ranked_rows_are_rows(entry_names(state.entries), state.query, state.filtered);
    let hits = rows_hits(state, body, shown.0, shown.1 - shown.0);
    assert forall|k: int| 0 <= k < hits.len() implies {
        &&& (#[trigger] hits[k]).1 == shown.0 + k
        &&& hits[k].0.y == body.y + k
        &&& hits[k].0.x == body.x
        &&& hits[k].0.width == body.width
        &&& hits[k].0.bottom_edge() <= body.bottom_edge()
    } by {
        assert(hits[k] == (row_rect(body, k), (shown.0 + k) as usize));
    }
}

/// Whatever is drawn can be hit: the box is reported exactly when its frame is
/// drawn.
pub proof fn law_drawn_box_can_be_hit(
    area: Rect,
    state: ClientPaletteView,
    palette: Palette,
    rounded: bool,
    r: Option<OverlayRender>,
)
    requires
        overlay_hits(area, state, r),
    ensures
        r is Some <==> overlay_steps(area, state, palette, rounded).len() > 0,
        r matches Some(render) ==> palette_box(area) == Some(render.command_palette_popup),
{
}

/// Each part of a row shows its own text: the name itself or a cut of it, the
/// description likewise behind a blank, the chord and the tag in full, and padding
/// blanks only.
#[verifier::spinoff_prover]
pub proof fn law_parts_show_their_own_text(
    name: Seq<char>,
    description: Option<Seq<char>>,
    keybinding: Option<Seq<char>>,
    tag: Seq<char>,
    width: u16,
    i: int,
)
    requires
        0 <= i < row_spans(name, description, keybinding, tag, width).len(),
    ensures
        ({
            let (kind, text) = row_spans(name, description, keybinding, tag, width)[i];
            &&& kind is Name ==> exists|max: u16| text == #[trigger] shortened(name, max)
            &&& kind is Description ==> description is Some && text.len() > 0 && text[0] == ' '
                && exists|max: u16| text.drop_first() == #[trigger] shortened(description->0, max)
            &&& kind is Keybind ==> keybinding == Some(text)
            &&& kind is Tag ==> text == tag
            &&& kind is Pad ==> forall|k: int| 0 <= k < text.len() ==> #[trigger] text[k] == ' '
        }),
{
    let spans = row_spans(name, description, keybinding, tag, width);
    let chord = some_text(keybinding);
    let (show_chord, right) = right_cluster(chord, tag, width);
    if right > 0 {
        let left = sat_sub(width as int, 1 + right);
        let shown = shown_name(name, left);
        let remaining = sat_sub(left as int, columns(shown) as int);
        let about = shown_description(description, remaining);
        assert(shown == shortened(name, max16(sat_sub(left as int, 1), 1)));
        if about is Some {
            let cut = shortened(description->0, (remaining - 1) as u16);
            assert(about->0 == seq![' '] + cut);
            assert((seq![' '] + cut).drop_first() =~= cut);
        }
    } else {
        assert(i == 1 ==> spans[i].1 == shortened(name, (width - 1) as u16));
    }
}

/// A text that fits is shown as it is; one that does not is cut to its longest
/// start that leaves a column for an ellipsis.
pub proof fn law_texts_are_cut_at_the_end(text: Seq<char>, max: u16)
    ensures
        columns(text) <= max ==> shortened(text, max) == text,
        columns(text) > max && max == 0 ==> shortened(text, max).len() == 0,
        columns(text) > max && max > 0 ==> {
            let cut = shortened(text, max);
            let n = cut.len() - 1;
            &&& cut.len() > 0 && cut.last() == '\u{2026}'
            &&& n <= text.len() && cut.drop_last() == text.take(n)
            &&& cells_width(CellMeasure::Cell, text.take(n)) + 1 <= max
            &&& n < text.len() ==> cells_width(CellMeasure::Cell, text.take(n + 1)) + 1 > max
        },
{
    law_cut_text_keeps_the_longest_start(CellMeasure::Cell, text, max as nat);
}

/// A row with room for everything shows it in order: name, description, chord and
/// tag, the last two at its right end, in as many columns as the row has.
#[verifier::spinoff_prover]
pub proof fn law_wide_row_shows_everything(
    name: Seq<char>,
    description: Seq<char>,
    chord: Seq<char>,
    tag: Seq<char>,
    width: u16,
)
    requires
        name.len() > 0,
        description.len() > 0,
        chord.len() > 0,
        columns(tag) > 0,
        columns(description) >= 2,
        columns(seq![' '] + description) == columns(description) + 1,
        1 + columns(name) + 1 + columns(description) + columns(chord) + 2 + columns(tag) <= width,
    ensures
        ({
            let slack = width - (1 + columns(name) + 1 + columns(description) + columns(chord) + 2
                + columns(tag));
            row_spans(name, Some(description), Some(chord), tag, width) == seq![
                (RowSpanKind::Pad, blanks(1)),
                (RowSpanKind::Name, name),
                (RowSpanKind::Description, seq![' '] + description),
                (RowSpanKind::Pad, blanks(slack as nat)),
                (RowSpanKind::Keybind, chord),
                (RowSpanKind::Pad, blanks(2)),
                (RowSpanKind::Tag, tag),
            ]
        }),
{
    let spans = row_spans(name, Some(description), Some(chord), tag, width);
    assert(some_text(Some(chord)) == Some(chord));
    assert(some_text(Some(description)) == Some(description));
    assert(wide_cluster(chord, tag) == columns(chord) + 2 + columns(tag));
    let slack = width - (1 + columns(name) + 1 + columns(description) + columns(chord) + 2
        + columns(tag));
    assert(spans =~= seq![
        (RowSpanKind::Pad, blanks(1)),
        (RowSpanKind::Name, name),
        (RowSpanKind::Description, seq![' '] + description),
        (RowSpanKind::Pad, blanks(slack as nat)),
        (RowSpanKind::Keybind, chord),
        (RowSpanKind::Pad, blanks(2)),
        (RowSpanKind::Tag, tag),
    ]);
}

/// The chord is shown exactly where it and the tag leave three columns to the
/// name, the tag exactly where it alone does.
pub proof fn law_name_keeps_three_columns(
    name: Seq<char>,
    description: Option<Seq<char>>,
    keybinding: Option<Seq<char>>,
    tag: Seq<char>,
    width: u16,
)
    requires
        columns(tag) > 0,
        keybinding matches Some(chord) ==> columns(chord) + columns(tag) < 0xfff0,
        columns(tag) < 0xfff0,
    ensures
        ({
            let spans = row_spans(name, description, keybinding, tag, width);
            &&& has_part(spans, RowSpanKind::Keybind) <==> keybinding is Some
                && keybinding->0.len() > 0 && width >= 3 + columns(keybinding->0) + 2 + columns(tag)
            &&& has_part(spans, RowSpanKind::Tag) <==> width >= 3 + columns(tag)
        }),
{
    let spans = row_spans(name, description, keybinding, tag, width);
    let chord = some_text(keybinding);
    let (show_chord, right) = right_cluster(chord, tag, width);
    if right > 0 {
        assert(spans[spans.len() - 1] == spans.last());
        assert(spans.last().0 == RowSpanKind::Tag);
        if show_chord {
            assert(spans[spans.len() - 3].0 == RowSpanKind::Keybind);
        }
    }
}

/// The color of a part in a row that is not selected.
pub open spec fn part_color(kind: RowSpanKind, palette: Palette) -> Color {
    match kind {
        RowSpanKind::Name => palette.subtext0,
        RowSpanKind::Pad => palette.subtext0,
        RowSpanKind::Description => palette.overlay0,
        RowSpanKind::Tag => palette.overlay0,
        RowSpanKind::Keybind => palette.overlay1,
    }
}

/// A row is drawn part by part from its left end, each where the one before it
/// ends. The selected row is drawn over the accent all along; in any other each
/// part has the color of its kind over the box.
pub proof fn law_drawn_row(
    entry: ClientEntryView,
    selected: bool,
    rect: Rect,
    palette: Palette,
    i: int,
)
    ensures
        ({
            let steps = row_steps(entry, selected, rect, palette);
            let spans = row_spans(
                entry.name,
                entry.description,
                entry.keybinding,
                source_tag(entry.source),
                rect.width,
            );
            let fill = steps[0];
            &&& steps.len() == spans.len() + 1
            &&& fill is Fill && fill->Fill_area == rect && fill->Fill_style.bg == Some(
                if selected {
                    palette.accent
                } else {
                    palette.panel_bg
                },
            )
            &&& 0 <= i < spans.len() ==> {
                let step = steps[i + 1];
                &&& step is Text
                &&& step->Text_text == spans[i].1 && step->Text_y == rect.y
                &&& step->Text_style.fg == Some(
                    if selected {
                        palette.panel_contrast_fg
                    } else {
                        part_color(spans[i].0, palette)
                    },
                )
                &&& step->Text_style.bg == fill->Fill_style.bg
                &&& i == 0 ==> step->Text_x == rect.x
                &&& i > 0 && steps[i]->Text_x + steps[i]->Text_width <= 0xffff ==> step->Text_x
                    == steps[i]->Text_x + steps[i]->Text_width
                &&& step->Text_width <= columns(spans[i].1)
            }
        }),
{
    let spans = row_spans(
        entry.name,
        entry.description,
        entry.keybinding,
        source_tag(entry.source),
        rect.width,
    );
    let look = row_look(selected, palette);
    let steps = row_steps(entry, selected, rect, palette);
    let parts = spans_steps(spans, rect.x, rect.y, rect.right_edge(), look);
    if 0 <= i < spans.len() {
        assert(steps[i + 1] == parts[i]);
        if i > 0 {
            assert(steps[i] == parts[i - 1]);
        }
    }
}

proof fn lemma_row_is_among_the_steps(
    state: ClientPaletteView,
    body: Rect,
    start: int,
    n: int,
    palette: Palette,
    k: int,
) -> (at: int)
    requires
        0 <= k < n,
        row_at(state, start + k) is Some,
    ensures
        ({
            let row = row_steps(
                row_at(state, start + k)->0,
                start + k == state.selected,
                row_rect(body, k),
                palette,
            );
            let steps = rows_steps(state, body, start, n, palette);
            &&& 0 <= at && at + row.len() <= steps.len()
            &&& steps.subrange(at, at + row.len()) == row
        }),
    decreases n,
{
    let row = row_steps(
        row_at(state, start + k)->0,
        start + k == state.selected,
        row_rect(body, k),
        palette,
    );
    let before = rows_steps(state, body, start, n - 1, palette);
    let steps = rows_steps(state, body, start, n, palette);
    if k == n - 1 {
        assert(steps == before + row);
        assert(steps.subrange(before.len() as int, (before.len() + row.len()) as int) =~= row);
        before.len() as int
    } else {
        let at = lemma_row_is_among_the_steps(state, body, start, n - 1, palette, k);
        assert(steps.subrange(at, at + row.len()) =~= before.subrange(at, at + row.len()));
        at
    }
}

/// The line that a click hits as row `k` in view shows the row that the list has at
/// that place, highlighted exactly where it is the selected one.
#[verifier::spinoff_prover]
pub proof fn law_hit_rows_are_drawn(
    state: ClientPaletteView,
    body: Rect,
    palette: Palette,
    k: int,
) -> (at: int)
    requires
        state.sound(),
        state.filtered.len() > 0,
        body.y + body.height <= 0xffff,
        body.x + body.width <= 0xffff,
        ({
            let shown = list_window(
                state.filtered.len() as int,
                body.height as int,
                state.selected as int,
            );
            0 <= k < shown.1 - shown.0
        }),
    ensures
        ({
            let shown = list_window(
                state.filtered.len() as int,
                body.height as int,
                state.selected as int,
            );
            let hit = rows_hits(state, body, shown.0, shown.1 - shown.0)[k];
            let row = row_steps(
                state.entries[state.filtered[hit.1 as int] as int],
                hit.1 == state.selected,
                hit.0,
                palette,
            );
            let steps = list_steps(state, body, palette);
            &&& hit.0 == (Rect { x: body.x, y: (body.y + k) as u16, width: body.width, height: 1 })
            &&& 0 <= at && at + row.len() <= steps.len()
            &&& steps.subrange(at, at + row.len()) == row
        }),
{
    let total = state.filtered.len() as int;
    let shown = list_window(total, body.height as int, state.selected as int);
    law_ranked_rows_are_rows(entry_names(state.entries), state.query, state.filtered);
    if body.height > 0 {
        law_window_shows_the_selection(total, body.height as int, state.selected as int);
    }
    lemma_rows_hits(state, body, shown.0, shown.1 - shown.0);
    let hit = rows_hits(state, body, shown.0, shown.1 - shown.0)[k];
    assert(hit == (row_rect(body, k), (shown.0 + k) as usize));
    lemma_row_is_among_the_steps(state, body, shown.0, shown.1 - shown.0, palette, k)
}

/// The header shows the query behind its prompt from the left end on. At its right
/// end stands that plugins are loading, or which of how many rows is selected,
/// where that leaves the query whole.
pub proof fn law_header_shows_the_query(state: ClientPaletteView, header: Rect, palette: Palette)
    requires
        header.x + header.width <= 0xffff,
    ensures
        ({
            let steps = header_steps(state, header, palette);
            let query = seq![' ', '>', ' '] + state.query;
            let note = if state.loading {
                "loading plugins\u{2026}"@
            } else {
                decimal((state.selected + 1) as nat) + seq!['/'] + decimal(state.filtered.len())
            };
            let noted = (state.loading || state.filtered.len() > 0) && columns(query) + columns(note)
                < header.width;
            &&& steps[0] is Text && steps[0]->Text_text == query && steps[0]->Text_x == header.x
                && steps[0]->Text_y == header.y && steps[0]->Text_style.fg == Some(palette.text)
            &&& steps.len() == (if noted {
                2int
            } else {
                1
            })
            &&& noted ==> steps[1] is Text && steps[1]->Text_text == note && steps[1]->Text_y
                == header.y && steps[1]->Text_width == columns(note) && steps[1]->Text_x + columns(
                note,
            ) == header.x + header.width && steps[1]->Text_style.fg == Some(palette.overlay0)
        }),
{
    reveal_strlit(" > ");
    assert(" > "@ =~= seq![' ', '>', ' ']);
    let a = decimal((state.selected + 1) as nat);
    assert(a.push('/') =~= a + seq!['/']);
}

/// The box holds, from top to bottom, the query, a rule, the list and the hints;
/// an empty list says that nothing matches the query.
#[verifier::spinoff_prover]
pub proof fn law_box_layout(state: ClientPaletteView, inner: Rect, palette: Palette)
    requires
        inner.height >= 4,
        inner.x + inner.width <= 0xffff,
        inner.y + inner.height <= 0xffff,
    ensures
        header_area(inner) == (Rect { height: 1, ..inner }),
        list_area(inner).x == inner.x && list_area(inner).width == inner.width,
        list_area(inner).y == inner.y + 2,
        list_area(inner).y + list_area(inner).height == inner.y + inner.height - 1,
        ({
            let steps = box_steps(state, inner, palette);
            let top = header_steps(state, header_area(inner), palette);
            let list = list_steps(state, list_area(inner), palette);
            let rule_step = steps[top.len() as int];
            let last = steps.last();
            &&& steps.len() == top.len() + 1 + list.len() + 1
            &&& steps.take(top.len() as int) == top
            &&& steps.skip(top.len() + 1int).take(list.len() as int) == list
            &&& rule_step is Text && rule_step->Text_y == inner.y + 1 && rule_step->Text_x == inner.x
                && rule_step->Text_text.len() == inner.width && (forall|k: int|
                0 <= k < inner.width ==> #[trigger] rule_step->Text_text[k] == '\u{2500}')
            &&& last is Text && last->Text_y == inner.y + inner.height - 1 && last->Text_x == inner.x
                && last->Text_text
                == " filter type \u{b7} move \u{2191}\u{2193}/ctrl+n/p \u{b7} page pgup/pgdn \u{b7} run enter \u{b7} close esc"@
            &&& state.filtered.len() == 0 ==> list.len() == 1 && list[0] is Text
                && list[0]->Text_text == " no commands match \""@ + state.query + seq!['"']
                && list[0]->Text_x == inner.x && list[0]->Text_y == inner.y + 2
        }),
{
    let steps = box_steps(state, inner, palette);
    let top = header_steps(state, header_area(inner), palette);
    let list = list_steps(state, list_area(inner), palette);
    assert(steps.take(top.len() as int) =~= top);
    assert(steps.skip(top.len() + 1int).take(list.len() as int) =~= list);
    let start = " no commands match \""@ + state.query;
    assert(start.push('"') =~= start + seq!['"']);
}

/// The palette takes six tenths of a screen, at least forty by ten cells of it, and
/// stands in its middle. The cursor stands behind the query, inside the header.
pub proof fn law_palette_box(area: Rect, state: ClientPaletteView, header: Rect)
    requires
        area.width > 0,
        area.height > 0,
        area.x + area.width <= 0xffff,
        area.y + area.height <= 0xffff,
        header.width > 0,
        header.x + header.width <= 0xffff,
    ensures
        palette_box(area) matches Some(b) && {
            let tenth_w = area.width * 6 / 10;
            let tenth_h = area.height * 6 / 10;
            &&& tenth_w >= 40 ==> b.width == tenth_w
            &&& tenth_w < 40 <= area.width ==> b.width == 40
            &&& area.width < 40 ==> b.width == area.width
            &&& tenth_h >= 10 ==> b.height == tenth_h
            &&& tenth_h < 10 <= area.height ==> b.height == 10
            &&& area.height < 10 ==> b.height == area.height
            &&& 0 <= b.x - area.x <= area.x + area.width - (b.x + b.width) <= b.x - area.x + 1
            &&& 0 <= b.y - area.y <= area.y + area.height - (b.y + b.height) <= b.y - area.y + 1
        },
        ({
            let cursor = query_cursor(state, header);
            let query = seq![' ', '>', ' '] + state.query;
            &&& cursor.visible && cursor.y == header.y
            &&& columns(query) < header.width ==> cursor.x == header.x + columns(query)
            &&& columns(query) >= header.width ==> cursor.x == header.x + header.width - 1
        }),
{
    reveal_strlit(" > ");
    assert(" > "@ =~= seq![' ', '>', ' ']);
    let w = max16(six_tenths(area.width), 40);
    let h = max16(six_tenths(area.height), 10);
    law_centered_box_is_in_the_middle(area, w, h);
}

/// The palette is a framed box in the middle of the screen, in the accent color. A
/// box of at least twelve by four cells inside its frame is filled, its rows can be
/// hit and a plain cursor stands in it; a smaller one stays empty, with no row to hit
/// and no cursor.
pub proof fn law_box_is_filled_where_it_has_room(
    area: Rect,
    state: ClientPaletteView,
    palette: Palette,
    rounded: bool,
    r: Option<OverlayRender>,
)
    requires
        overlay_hits(area, state, r),
        palette_box(area) is Some,
        panel_inner(palette_box(area)->0) is Some,
    ensures
        ({
            let outer = palette_box(area)->0;
            let inner = panel_inner(outer)->0;
            let steps = overlay_steps(area, state, palette, rounded);
            &&& steps[0] == (DrawOpView::Panel {
                area: outer,
                border: palette.accent,
                background: palette.panel_bg,
                rounded,
            })
            &&& inner.width >= 12 && inner.height >= 4 ==> {
                &&& steps.skip(1) == box_steps(state, inner, palette)
                &&& r matches Some(render) && render.command_palette_list_height == list_area(
                    inner,
                ).height && render.cursor is Some && render.cursor->0.shape == 0
                    && render.cursor->0.visible && render.cursor->0 == query_cursor(
                    state,
                    header_area(inner),
                )
            }
            &&& inner.width < 12 || inner.height < 4 ==> {
                &&& steps.len() == 1
                &&& r matches Some(render) && render.command_palette_rows@.len() == 0
                    && render.command_palette_list_height == 0 && render.cursor is None
            }
        }),
{
    let inner = panel_inner(palette_box(area)->0)->0;
    let steps = overlay_steps(area, state, palette, rounded);
    if inner.width >= 12 && inner.height >= 4 {
        assert(steps.skip(1) =~= box_steps(state, inner, palette));
    }
}

/// The name has what the right end of the row leaves it, less a column on either
/// side; the description what the name leaves, where that is three columns or more.
#[verifier::spinoff_prover]
pub proof fn law_columns_of_name_and_description(
    name: Seq<char>,
    description: Seq<char>,
    keybinding: Option<Seq<char>>,
    tag: Seq<char>,
    width: u16,
)
    requires
        columns(tag) > 0,
        description.len() > 0,
        keybinding matches Some(chord) ==> columns(chord) + columns(tag) < 0xfff0,
        columns(tag) < 0xfff0,
        width >= 3 + columns(tag),
    ensures
        ({
            let spans = row_spans(name, Some(description), keybinding, tag, width);
            let chord = keybinding is Some && keybinding->0.len() > 0;
            let shown = chord && width >= 3 + columns(keybinding->0) + 2 + columns(tag);
            let right = columns(tag) + (if shown {
                columns(keybinding->0) + 2
            } else {
                0
            });
            let room = width - 2 - right;
            let cut = shortened(name, room as u16);
            let rest = width - 1 - right - columns(cut);
            &&& spans[0] == (RowSpanKind::Pad, seq![' '])
            &&& spans[1] == (RowSpanKind::Name, cut)
            &&& (!chord || shown) && rest >= 3 ==> spans[2] == (
                RowSpanKind::Description,
                seq![' '] + shortened(description, (rest - 1) as u16),
            )
            &&& (chord && !shown) || rest < 3 ==> !has_part(spans, RowSpanKind::Description)
        }),
{
    let spans = row_spans(name, Some(description), keybinding, tag, width);
    assert(some_text(Some(description)) == Some(description));
    assert(blanks(1) =~= seq![' ']);
}

/// A row too narrow for its tag shows its name alone, behind a blank.
pub proof fn law_narrow_row_shows_its_name(
    name: Seq<char>,
    description: Option<Seq<char>>,
    tag: Seq<char>,
    width: u16,
)
    requires
        0 < width < 3 + columns(tag),
        columns(tag) < 0xfff0,
    ensures
        row_spans(name, description, None, tag, width) == seq![
            (RowSpanKind::Pad, seq![' ']),
            (RowSpanKind::Name, shortened(name, (width - 1) as u16)),
        ],
        row_spans(name, description, None, tag, 0).len() == 0,
{
    assert(blanks(1) =~= seq![' ']);
}

} // verus!
