//! The palette list of the single-process interface.

use vstd::prelude::*;

use crate::app::command_palette::{
    source_tag, CommandEntry, CommandEntryView, CommandPaletteState, CommandPaletteView,
};
use crate::canvas::{
    clipped_columns, larger, max16, product, sat_add, sat_mul, Canvas, DrawOpView, Modifier, Palette, Rect, Style, DIM,
};
use crate::text::{chars_of, owned, push_text, string_of};

verus! {

// --- the window of rows ---------------------------------------------------------

/// The first of `height` rows out of more than that, with `selected` as near to
/// the middle as the ends allow.
pub open spec fn window_start(total: int, height: int, selected: int) -> int {
    let centered = if selected - height / 2 < 0 {
        0
    } else {
        selected - height / 2
    };
    if centered > total - height {
        total - height
    } else {
        centered
    }
}

/// The rows to show, from the first to before the second.
pub open spec fn window(total: int, height: int, selected: int) -> (int, int) {
    if total <= height {
        (0, total)
    } else {
        (window_start(total, height, selected), window_start(total, height, selected) + height)
    }
}

/// The row window that keeps `selected` visible.
pub fn visible_window(total: usize, height: usize, selected: usize) -> (r: (usize, usize))
    ensures
        r.0 == window(total as int, height as int, selected as int).0,
        r.1 == window(total as int, height as int, selected as int).1,
        r.0 <= r.1 <= total,
        r.1 - r.0 <= height,
{
    if total <= height {
        return (0, total);
    }
    let half: usize = height / 2;
    let centered: usize = selected.saturating_sub(half);
    let start: usize = if centered < total - height {
        centered
    } else {
        total - height
    };
    (start, start + height)
}

/// The window is as large as the view allows and holds the selected row.
pub proof fn law_window_shows_the_selection(total: int, height: int, selected: int)
    requires
        0 <= selected < total,
        0 < height,
    ensures
        window(total, height, selected).0 <= selected < window(total, height, selected).1,
        0 <= window(total, height, selected).0,
        window(total, height, selected).1 <= total,
        window(total, height, selected).1 - window(total, height, selected).0 == (if total
            <= height {
            total
        } else {
            height
        }),
{
}

// --- names ------------------------------------------------------------------------

/// A text of at most `max` characters: itself where it fits, else cut with a
/// closing ellipsis.
pub open spec fn shortened(s: Seq<char>, max: nat) -> Seq<char> {
    if s.len() <= max {
        s
    } else if max == 0 {
        Seq::empty()
    } else {
        s.take(max - 1).push('\u{2026}')
    }
}

/// Cut a text to `max` characters with a closing ellipsis.
pub fn truncate_ellipsis(s: &str, max: usize) -> (r: String)
    ensures
        r@ == shortened(s@, max as nat),
        r@.len() <= max,
{
    let chars = chars_of(s);
    if chars.len() <= max {
        return owned(s);
    }
    if max == 0 {
        return String::new();
    }
    let mut r = string_of(chars.as_slice(), 0, max - 1);
    assert(chars@.subrange(0, max - 1) =~= s@.take(max - 1));
    r.push('\u{2026}');
    r
}

/// `n` blanks.
pub open spec fn blanks(n: nat) -> Seq<char> {
    Seq::new(n, |i: int| ' ')
}

/// Append `n` blanks.
pub fn push_blanks(out: &mut String, n: usize)
    ensures
        final(out)@ == old(out)@ + blanks(n as nat),
{
    let ghost before = out@;
    let mut i: usize = 0;
    assert(before + blanks(0) =~= before);
    while i < n
        invariant
            i <= n,
            out@ == before + blanks(i as nat),
        decreases n - i,
    {
        out.push(' ');
        i = i + 1;
        assert((before + blanks((i - 1) as nat)).push(' ') =~= before + blanks(i as nat));
    }
}

/// A text filled up with blanks to `n` characters.
pub open spec fn filled_up(s: Seq<char>, n: nat) -> Seq<char> {
    if s.len() < n {
        s + blanks((n - s.len()) as nat)
    } else {
        s
    }
}

// --- drawing ----------------------------------------------------------------------

/// Six tenths of a length, as far as sixteen bits count the product.
pub open spec fn six_tenths(available: u16) -> u16 {
    sat_mul(available as int, 6) / 10
}

/// The size of the palette's box: six tenths of the screen, and not too small.
pub fn palette_box_size(area: Rect) -> (r: (u16, u16))
    ensures
        r.0 == max16(six_tenths(area.width), 20),
        r.1 == max16(six_tenths(area.height), 5),
{
    (larger(product(area.width, 6) / 10, 20), larger(product(area.height, 6) / 10, 5))
}

/// The columns left for a name beside a tag.
pub open spec fn name_columns(width: u16, tag: Seq<char>) -> nat {
    if width < tag.len() + 3 {
        0
    } else {
        (width - tag.len() - 3) as nat
    }
}

/// The name part of a row.
pub open spec fn name_cell(name: Seq<char>, columns: nat) -> Seq<char> {
    (seq![' '] + filled_up(shortened(name, columns), columns)).push(' ')
}

/// The style of a row.
pub open spec fn row_style(palette: Palette, selected: bool) -> Style {
    if selected {
        Style::plain().in_color(palette.text).over(palette.surface1)
    } else {
        Style::plain().in_color(palette.subtext0)
    }
}

/// The style of tags and of the note that nothing matches.
pub open spec fn dim_style(palette: Palette) -> Style {
    Style::plain().in_color(palette.overlay0).adding(Modifier { bits: DIM })
}

/// The steps that draw one row at `y`.
pub open spec fn row_steps(
    entry: CommandEntryView,
    selected: bool,
    list: Rect,
    y: u16,
    palette: Palette,
) -> Seq<DrawOpView> {
    let tag = source_tag(entry.source);
    let name = name_cell(entry.name, name_columns(list.width, tag));
    let style = row_style(palette, selected);
    let row = Rect::at(list.x, y, list.width, 1);
    let width = clipped_columns(list.x, row.right_edge(), name);
    let after = sat_add(list.x as int, width as int);
    seq![
        DrawOpView::Fill { area: row, style },
        DrawOpView::Text { x: list.x, y, width, text: name, style },
        DrawOpView::Text {
            x: after,
            y,
            width: clipped_columns(after, row.right_edge(), tag),
            text: tag,
            style: dim_style(palette),
        },
    ]
}

/// The steps that draw the first `n` rows of a window that starts at `start`.
pub open spec fn rows_steps(
    state: CommandPaletteView,
    list: Rect,
    start: int,
    n: int,
    palette: Palette,
) -> Seq<DrawOpView>
    decreases n,
{
    if n <= 0 {
        Seq::empty()
    } else {
        rows_steps(state, list, start, n - 1, palette) + row_steps(
            state.entries[state.filtered[start + n - 1] as int],
            start + n - 1 == state.selected,
            list,
            sat_add(list.y as int, n - 1),
            palette,
        )
    }
}

/// The query with a block for a cursor.
pub open spec fn filter_line(query: Seq<char>) -> Seq<char> {
    (seq![' '] + query).push('\u{2588}')
}

/// The note that nothing matches.
pub open spec fn no_match_line(query: Seq<char>) -> Seq<char> {
    ("  No commands match \""@ + query).push('"')
}

/// The steps that draw the palette into the two parts of its box.
pub open spec fn overlay_steps(
    state: CommandPaletteView,
    header: Rect,
    list: Rect,
    palette: Palette,
) -> Seq<DrawOpView> {
    let filter_style = Style::plain().in_color(palette.text).over(palette.surface0);
    let top = seq![
        DrawOpView::Clear { area: header },
        DrawOpView::Fill { area: header, style: filter_style },
        DrawOpView::Text {
            x: header.x,
            y: header.y,
            width: header.width,
            text: filter_line(state.query),
            style: filter_style,
        },
    ];
    if list.height == 0 {
        top
    } else if state.filtered.len() == 0 {
        top + seq![
            DrawOpView::Fill { area: list, style: dim_style(palette) },
            DrawOpView::Text {
                x: list.x,
                y: list.y,
                width: list.width,
                text: no_match_line(state.query),
                style: dim_style(palette),
            },
        ]
    } else {
        let shown = window(state.filtered.len() as int, list.height as int, state.selected as int);
        top + rows_steps(state, list, shown.0, shown.1 - shown.0, palette)
    }
}

/// Every listed place is a row.
pub open spec fn lists_rows(state: CommandPaletteView) -> bool {
    forall|i: int|
        0 <= i < state.filtered.len() ==> (#[trigger] state.filtered[i]) < state.entries.len()
}

/// A palette that was filtered lists rows only.
pub proof fn law_filtered_palette_lists_rows(state: CommandPaletteView)
    requires
        state.is_filtered(),
    ensures
        lists_rows(state),
{
    assert forall|i: int| 0 <= i < state.filtered.len() implies (#[trigger] state.filtered[i])
        < state.entries.len() by {
        assert(state.filtered.contains(state.filtered[i]));
    }
}

fn draw_row(
    canvas: &mut Canvas,
    entry: &CommandEntry,
    selected: bool,
    list: Rect,
    y: u16,
    palette: &Palette,
)
    ensures
        final(canvas).area == old(canvas).area,
        final(canvas)@ == old(canvas)@ + row_steps(entry@, selected, list, y, *palette),
{
    let ghost before = canvas@;
    let tag = entry.source.tag();
    let tag_chars = chars_of(tag);
    let tag_len: usize = tag_chars.len();
    proof {
        reveal_strlit("built-in");
        reveal_strlit("plugin");
        reveal_strlit("custom");
    }
    let width: usize = (list.width as usize).saturating_sub(tag_len + 3);
    let name = truncate_ellipsis(entry.name.as_str(), width);
    let name_chars = chars_of(name.as_str());
    let mut cell = owned(" ");
    proof {
        reveal_strlit(" ");
        assert(cell@ =~= seq![' ']);
    }
    push_text(&mut cell, name.as_str());
    if name_chars.len() < width {
        push_blanks(&mut cell, width - name_chars.len());
    }
    cell.push(' ');
    assert(cell@ =~= name_cell(entry@.name, name_columns(list.width, tag@)));
    let style = if selected {
        Style::new().fg(palette.text).bg(palette.surface1)
    } else {
        Style::new().fg(palette.subtext0)
    };
    let row = Rect::new(list.x, y, list.width, 1);
    canvas.set_style(row, style);
    let next = canvas.put_segment(list.x, y, row.right(), cell.as_str(), style);
    canvas.put_segment(
        next,
        y,
        row.right(),
        tag,
        Style::new().fg(palette.overlay0).add_modifier(Modifier { bits: DIM }),
    );
    assert(canvas@ =~= before + row_steps(entry@, selected, list, y, *palette));
}

/// Draw the palette into the header and the list of its box.
pub fn render_command_palette_overlay(
    canvas: &mut Canvas,
    state: &CommandPaletteState,
    header: Rect,
    list: Rect,
    palette: &Palette,
)
    requires
        lists_rows(state@),
    ensures
        final(canvas).area == old(canvas).area,
        final(canvas)@ == old(canvas)@ + overlay_steps(state@, header, list, *palette),
{
    let ghost before = canvas@;
    let ghost view = state@;
    let filter_style = Style::new().fg(palette.text).bg(palette.surface0);
    let mut filter = owned(" ");
    proof {
        reveal_strlit(" ");
        assert(filter@ =~= seq![' ']);
    }
    push_text(&mut filter, state.query.as_str());
    filter.push('\u{2588}');
    canvas.clear(header);
    canvas.set_style(header, filter_style);
    canvas.put_text(header.x, header.y, header.width, filter.as_str(), filter_style);
    let ghost top = canvas@;
    if list.height == 0 {
        assert(canvas@ =~= before + overlay_steps(view, header, list, *palette));
        return;
    }
    let total: usize = state.filtered.len();
    if total == 0 {
        let note_style = Style::new().fg(palette.overlay0).add_modifier(Modifier { bits: DIM });
        let mut note = owned("  No commands match \"");
        push_text(&mut note, state.query.as_str());
        note.push('"');
        canvas.set_style(list, note_style);
        canvas.put_text(list.x, list.y, list.width, note.as_str(), note_style);
        assert(canvas@ =~= before + overlay_steps(view, header, list, *palette));
        return;
    }
    let shown = visible_window(total, list.height as usize, state.selected);
    let count: usize = shown.1 - shown.0;
    let mut n: usize = 0;
    assert(top + rows_steps(view, list, shown.0 as int, 0, *palette) =~= top);
    while n < count
        invariant
            view == state@,
            lists_rows(view),
            total == view.filtered.len(),
            shown.0 <= shown.1 <= total,
            count == shown.1 - shown.0,
            count <= list.height,
            n <= count,
            canvas.area == old(canvas).area,
            canvas@ == top + rows_steps(view, list, shown.0 as int, n as int, *palette),
        decreases count - n,
    {
        let place: usize = shown.0 + n;
        let i: usize = state.filtered[place];
        assert(view.filtered[place as int] == i);
        let y: u16 = list.y.saturating_add(n as u16);
        let ghost drawn = rows_steps(view, list, shown.0 as int, n as int, *palette);
        draw_row(canvas, &state.entries[i], place == state.selected, list, y, palette);
        n = n + 1;
        assert(canvas@ =~= top + rows_steps(view, list, shown.0 as int, n as int, *palette));
    }
    assert(canvas@ =~= before + overlay_steps(view, header, list, *palette));
}

/// Where the palette stands: its box, the line of the query, and the list below a
/// blank line.
#[derive(Debug, Clone, Copy, PartialEq, Eq, Structural)]
pub struct PaletteAreas {
    pub outer: Rect,
    pub header: Rect,
    pub list: Rect,
}

/// The areas of the palette on a screen; `None` where its box does not fit.
pub open spec fn areas_of(area: Rect) -> Option<PaletteAreas> {
    let width = max16(six_tenths(area.width), 20);
    let height = max16(six_tenths(area.height), 5);
    if area.width < width || area.height < height {
        None
    } else {
        let outer = Rect::at(
            sat_add(area.x as int, (area.width - width) / 2),
            sat_add(area.y as int, (area.height - height) / 2),
            width,
            height,
        );
        let x = sat_add(outer.x as int, 1);
        let y = sat_add(outer.y as int, 1);
        Some(
            PaletteAreas {
                outer,
                header: Rect::at(x, y, (width - 2) as u16, 1),
                list: Rect::at(x, sat_add(y as int, 2), (width - 2) as u16, (height - 4) as u16),
            },
        )
    }
}

/// Lay the palette out on a screen. A screen too small for its box shows none.
pub fn palette_areas(area: Rect) -> (r: Option<PaletteAreas>)
    ensures
        r == areas_of(area),
{
    let (width, height) = palette_box_size(area);
    if area.width < width || area.height < height {
        return None;
    }
    let outer = Rect::new(
        area.x.saturating_add((area.width - width) / 2),
        area.y.saturating_add((area.height - height) / 2),
        width,
        height,
    );
    let x: u16 = outer.x.saturating_add(1);
    let y: u16 = outer.y.saturating_add(1);
    Some(
        PaletteAreas {
            outer,
            header: Rect::new(x, y, width - 2, 1),
            list: Rect::new(x, y.saturating_add(2), width - 2, height - 4),
        },
    )
}

/// The window has the selected row in its middle where the list goes on far enough
/// on both sides, and touches an end of the list where it does not.
pub proof fn law_window_is_centered(total: int, height: int, selected: int)
    requires
        0 <= selected < total,
        0 < height < total,
    ensures
        ({
            let (start, end) = window(total, height, selected);
            &&& end == start + height
            &&& start == 0 || end == total || selected - start == height / 2
            &&& selected < height / 2 ==> start == 0
            &&& selected - height / 2 > total - height ==> end == total
        }),
{
}

/// A name that fits is shown as it is; one that does not keeps its start before an
/// ellipsis.
pub proof fn law_names_are_cut_at_the_end(s: Seq<char>, max: nat)
    ensures
        s.len() <= max ==> shortened(s, max) == s,
        s.len() > max && max > 0 ==> shortened(s, max).len() == max && shortened(s, max).last()
            == '\u{2026}' && shortened(s, max).drop_last() == s.take(max - 1),
        max == 0 ==> shortened(s, max).len() == 0,
{
    if s.len() > max && max > 0 {
        assert(shortened(s, max).drop_last() =~= s.take(max - 1));
    }
    if max == 0 && s.len() == 0 {
        assert(s =~= Seq::<char>::empty());
    }
}

/// A row shows a blank, the name, blanks up to its tag, and the tag at its end. The
/// selected row is drawn bright over a surface of its own, the tag dim in any row.
#[verifier::spinoff_prover]
pub proof fn law_row_shows_name_and_tag(
    entry: CommandEntryView,
    selected: bool,
    list: Rect,
    y: u16,
    palette: Palette,
)
    requires
        list.x + list.width <= 0xffff,
        y < 0xffff,
    ensures
        ({
            let steps = row_steps(entry, selected, list, y, palette);
            let tag = if entry.source is BuiltIn {
                "built-in"@
            } else if entry.source is Plugin {
                "plugin"@
            } else {
                "custom"@
            };
            let room = list.width - tag.len() - 3;
            &&& steps.len() == 3
            &&& steps[0] is Fill && steps[0]->Fill_area == (Rect {
                x: list.x,
                y,
                width: list.width,
                height: 1,
            })
            &&& steps[1] is Text && steps[1]->Text_x == list.x && steps[1]->Text_y == y
            &&& entry.name.len() <= room ==> steps[1]->Text_text == seq![' '] + entry.name
                + blanks((room - entry.name.len()) as nat) + seq![' ']
            &&& steps[2] is Text && steps[2]->Text_text == tag && steps[2]->Text_y == y
            &&& steps[2]->Text_x == steps[1]->Text_x + steps[1]->Text_width
            &&& steps[1]->Text_style == steps[0]->Fill_style
            &&& selected ==> steps[1]->Text_style.fg == Some(palette.text)
                && steps[1]->Text_style.bg == Some(palette.surface1)
            &&& !selected ==> steps[1]->Text_style.fg == Some(palette.subtext0)
                && steps[1]->Text_style.bg is None
            &&& steps[2]->Text_style.fg == Some(palette.overlay0)
            &&& steps[2]->Text_style.add_modifier.bits & 2u16 == 2u16
        }),
{
    let tag = source_tag(entry.source);
    let room = list.width - tag.len() - 3;
    if entry.name.len() <= room {
        let cell = name_cell(entry.name, room as nat);
        assert(cell =~= seq![' '] + entry.name + blanks((room - entry.name.len()) as nat)
            + seq![' ']);
    }
    assert((0u16 | 2u16) & 2u16 == 2u16) by (bit_vector);
}

#[verifier::spinoff_prover]
proof fn lemma_rows_steps_at(
    state: CommandPaletteView,
    list: Rect,
    start: int,
    n: int,
    palette: Palette,
    k: int,
)
    requires
        0 <= k < n,
    ensures
        rows_steps(state, list, start, n, palette).len() == 3 * n,
        rows_steps(state, list, start, n, palette).skip(3 * k).take(3) == row_steps(
            state.entries[state.filtered[start + k] as int],
            start + k == state.selected,
            list,
            sat_add(list.y as int, k),
            palette,
        ),
    decreases n,
{
    let before = rows_steps(state, list, start, n - 1, palette);
    let last = row_steps(
        state.entries[state.filtered[start + n - 1] as int],
        start + n - 1 == state.selected,
        list,
        sat_add(list.y as int, n - 1),
        palette,
    );
    assert(rows_steps(state, list, start, n, palette) == before + last);
    assert(last.len() == 3);
    if n - 1 > 0 {
        lemma_rows_steps_at(
            state,
            list,
            start,
            n - 1,
            palette,
            if k < n - 1 {
                k
            } else {
                0
            },
        );
    } else {
        assert(before.len() == 0);
    }
    lemma_part_of_sum(before, last, 3 * k);
}

/// Three steps of a sum lie in its first part or are all of its second.
proof fn lemma_part_of_sum(a: Seq<DrawOpView>, b: Seq<DrawOpView>, at: int)
    requires
        0 <= at,
        b.len() == 3,
    ensures
        at + 3 <= a.len() ==> (a + b).skip(at).take(3) == a.skip(at).take(3),
        at == a.len() ==> (a + b).skip(at).take(3) == b,
{
    if at + 3 <= a.len() {
        assert((a + b).skip(at).take(3) =~= a.skip(at).take(3));
    } else if at == a.len() {
        assert((a + b).skip(at).take(3) =~= b);
    }
}

/// The palette shows the query before its cursor at the top, and below it the rows
/// of the list around the selected one, each on its own line and in the order of the
/// list; where nothing matches it says so.
#[verifier::spinoff_prover]
pub proof fn law_palette_shows_the_list(
    state: CommandPaletteView,
    header: Rect,
    list: Rect,
    palette: Palette,
    k: int,
)
    requires
        list.height > 0,
        list.y + list.height <= 0xffff,
    ensures
        ({
            let steps = overlay_steps(state, header, list, palette);
            let shown = window(state.filtered.len() as int, list.height as int, state.selected as int);
            &&& steps[0] == (DrawOpView::Clear { area: header })
            &&& steps[2] is Text && steps[2]->Text_text == seq![' '] + state.query
                + seq!['\u{2588}'] && steps[2]->Text_x == header.x && steps[2]->Text_y == header.y
                && steps[2]->Text_style.fg == Some(palette.text) && steps[2]->Text_style.bg == Some(
                palette.surface0,
            )
            &&& state.filtered.len() == 0 ==> steps.len() == 5 && steps[4] is Text
                && steps[4]->Text_text == "  No commands match \""@ + state.query + seq!['"']
                && steps[4]->Text_y == list.y
            &&& state.filtered.len() > 0 && state.selected < state.filtered.len() && 0 <= k
                < shown.1 - shown.0 ==> steps.len() == 3 + 3 * (shown.1 - shown.0) && steps.skip(
                3 + 3 * k,
            ).take(3) == row_steps(
                state.entries[state.filtered[shown.0 + k] as int],
                shown.0 + k == state.selected,
                list,
                (list.y + k) as u16,
                palette,
            )
        }),
{
    let steps = overlay_steps(state, header, list, palette);
    let total = state.filtered.len() as int;
    let shown = window(total, list.height as int, state.selected as int);
    let line = seq![' '] + state.query;
    assert(line.push('\u{2588}') =~= line + seq!['\u{2588}']);
    let note = "  No commands match \""@ + state.query;
    assert(note.push('"') =~= note + seq!['"']);
    if total > 0 && state.selected < total && 0 <= k < shown.1 - shown.0 {
        law_window_shows_the_selection(total, list.height as int, state.selected as int);
        lemma_rows_steps_at(state, list, shown.0, shown.1 - shown.0, palette, k);
        let rows = rows_steps(state, list, shown.0, shown.1 - shown.0, palette);
        assert(steps.skip(3 + 3 * k).take(3) =~= rows.skip(3 * k).take(3));
    }
}

/// The palette takes six tenths of a screen, at least twenty by five cells, in its
/// middle, where they fit. The query stands on the first line inside the border and
/// the list below a blank line, down to the border.
pub proof fn law_palette_areas(area: Rect)
    requires
        area.width <= 10_000,
        area.height <= 10_000,
        area.x + area.width <= 0xffff,
        area.y + area.height <= 0xffff,
    ensures
        areas_of(area) is Some <==> area.width >= 20 && area.height >= 5,
        areas_of(area) matches Some(r) ==> {
            let b = r.outer;
            &&& area.width * 6 / 10 >= 20 ==> b.width == area.width * 6 / 10
            &&& area.width * 6 / 10 < 20 ==> b.width == 20
            &&& area.height * 6 / 10 >= 5 ==> b.height == area.height * 6 / 10
            &&& area.height * 6 / 10 < 5 ==> b.height == 5
            &&& 0 <= b.x - area.x <= area.x + area.width - (b.x + b.width) <= b.x - area.x + 1
            &&& 0 <= b.y - area.y <= area.y + area.height - (b.y + b.height) <= b.y - area.y + 1
            &&& r.header == (Rect {
                x: (b.x + 1) as u16,
                y: (b.y + 1) as u16,
                width: (b.width - 2) as u16,
                height: 1,
            })
            &&& r.list == (Rect {
                x: (b.x + 1) as u16,
                y: (b.y + 3) as u16,
                width: (b.width - 2) as u16,
                height: (b.height - 4) as u16,
            })
        },
{
}

} // verus!
