//! The tab bar: which tabs are in view, where each part of the bar stands, and
//! what is drawn there.

use vstd::prelude::*;

use crate::canvas::{
    larger, max16, min16, product, sat_add, sat_mul, sat_sub, smaller, Canvas, Color, DrawOpView,
    Modifier, Palette, Rect, Style, BOLD, DIM,
};
use crate::client::status_strip::{
    is_enabled, render_status_strip, status_strip_width, strip_enabled, strip_steps, strip_wants,
};
use crate::client::{
    ClientShellConfig, ClientShellSnapshot, ClientShellTab, HitsView, ShellHitMap, SnapshotView, TabCapStyleConfig,
    TabStatusView, TabView,
};
use crate::text::{lemma_views_empty, lemma_views_push, push_text, same_text, views};
use crate::ui::command_palette::{blanks, push_blanks};
use crate::width::{columns, display_width};

verus! {

/// Narrowest tab.
pub const MIN_TAB_WIDTH: u16 = 8;

/// Columns of the control that opens a tab.
pub const NEW_TAB_WIDTH: u16 = 3;

/// Columns of a scroll button.
pub const TAB_SCROLL_BUTTON_WIDTH: u16 = 3;

/// Columns that the tabs keep beside a decoration at the right: one tab, the
/// control that opens a tab, and both scroll buttons.
pub const MIN_TAB_STRIP_WIDTH: u16 = 17;

/// Narrowest tab that has room for a label between two caps.
pub const MIN_CAPPED_TAB_WIDTH: u16 = 3;

// --- single tabs -------------------------------------------------------------------

/// The label of a tab; a zoomed one is marked.
pub open spec fn label_of(tab: TabView) -> Seq<char> {
    if tab.zoomed {
        tab.label + " Z"@
    } else {
        tab.label
    }
}

pub fn tab_label(tab: &ClientShellTab) -> (r: String)
    ensures
        r@ == label_of(tab@),
{
    let mut label = tab.label.clone();
    if tab.zoomed {
        push_text(&mut label, " Z");
    }
    label
}

/// The columns a tab wants for a label: some padding, a least width, and one
/// more where the padding could not be shared evenly.
pub open spec fn tab_columns(label: Seq<char>) -> u16 {
    let own = columns(label);
    let padded = max16(sat_add(own as int, 4), MIN_TAB_WIDTH);
    if (padded - own) % 2 == 0 {
        padded
    } else {
        sat_add(padded as int, 1)
    }
}

pub fn tab_width(label: &str) -> (w: u16)
    ensures
        w == tab_columns(label@),
        w >= MIN_TAB_WIDTH,
{
    let own: u16 = display_width(label);
    let padded: u16 = larger(own.saturating_add(4), MIN_TAB_WIDTH);
    if (padded - own) % 2 == 0 {
        padded
    } else {
        padded.saturating_add(1)
    }
}

/// A label stands in the exact middle of its tab, where sixteen bits count the
/// width.
pub proof fn law_label_is_centered(label: Seq<char>)
    requires
        columns(label) <= u16::MAX - 4,
    ensures
        (tab_columns(label) - columns(label)) % 2 == 0,
        tab_columns(label) >= columns(label) + 4,
        tab_columns(label) >= MIN_TAB_WIDTH,
{
}

/// The glyphs at the two ends of a tab.
pub open spec fn cap_glyphs(style: TabCapStyleConfig) -> Option<(Seq<char>, Seq<char>)> {
    match style {
        TabCapStyleConfig::Block => None,
        TabCapStyleConfig::Round => Some(("\u{25d6}"@, "\u{25d7}"@)),
        TabCapStyleConfig::Slant => Some(("\u{2571}"@, "\u{2572}"@)),
        TabCapStyleConfig::Powerline => Some(("\u{e0b6}"@, "\u{e0b4}"@)),
    }
}

/// The glyphs at the two ends of a tab. They stand in the padding, so they cost
/// no width.
pub fn tab_cap_glyphs(style: TabCapStyleConfig) -> (r: Option<(&'static str, &'static str)>)
    ensures
        match r {
            Some(caps) => cap_glyphs(style) == Some((caps.0@, caps.1@)),
            None => cap_glyphs(style) is None,
        },
{
    match style {
        TabCapStyleConfig::Block => None,
        TabCapStyleConfig::Round => Some(("\u{25d6}", "\u{25d7}")),
        TabCapStyleConfig::Slant => Some(("\u{2571}", "\u{2572}")),
        // These two need a font with the powerline glyphs.
        TabCapStyleConfig::Powerline => Some(("\u{e0b6}", "\u{e0b4}")),
    }
}

/// Blank columns between neighboring tabs: none where caps set them apart.
pub open spec fn gap_of(style: TabCapStyleConfig) -> u16 {
    if cap_glyphs(style) is Some {
        0
    } else {
        1
    }
}

pub fn tab_gap(style: TabCapStyleConfig) -> (r: u16)
    ensures
        r == gap_of(style),
{
    if tab_cap_glyphs(style).is_some() {
        0
    } else {
        1
    }
}

/// A cell lies in an area.
pub open spec fn covers(area: Rect, x: u16, y: u16) -> bool {
    area.x <= x < area.right_edge() && area.y <= y < area.bottom_edge()
}

/// The step that draws a cap, where its cell is on the canvas.
pub open spec fn cap_step(area: Rect, x: u16, y: u16, symbol: Seq<char>, style: Style) -> Seq<
    DrawOpView,
> {
    if covers(area, x, y) {
        seq![DrawOpView::Symbol { x, y, symbol, style }]
    } else {
        Seq::empty()
    }
}

/// The steps that draw the caps of a tab; a clipped tab keeps its label instead.
pub open spec fn cap_steps(
    area: Rect,
    rect: Rect,
    tab_bg: Color,
    bar_bg: Color,
    style: TabCapStyleConfig,
) -> Seq<DrawOpView> {
    match cap_glyphs(style) {
        Some((left, right)) if rect.width >= MIN_CAPPED_TAB_WIDTH => {
            let colors = Style::plain().in_color(tab_bg).over(bar_bg);
            cap_step(area, rect.x, rect.y, left, colors) + cap_step(
                area,
                sat_sub(rect.right_edge() as int, 1),
                rect.y,
                right,
                colors,
            )
        },
        _ => Seq::empty(),
    }
}

fn draw_cap(canvas: &mut Canvas, x: u16, y: u16, symbol: &str, style: Style)
    ensures
        final(canvas).area == old(canvas).area,
        final(canvas)@ == old(canvas)@ + cap_step(old(canvas).area, x, y, symbol@, style),
{
    let ghost before = canvas@;
    let area = canvas.area;
    if area.x <= x && x < area.right() && area.y <= y && y < area.bottom() {
        canvas.set_symbol(x, y, symbol, style);
    }
    assert(canvas@ =~= before + cap_step(area, x, y, symbol@, style));
}

/// Draw the caps of a tab in its own color on the color of the bar.
pub fn draw_tab_caps(
    canvas: &mut Canvas,
    rect: Rect,
    tab_bg: Color,
    bar_bg: Color,
    style: TabCapStyleConfig,
)
    ensures
        final(canvas).area == old(canvas).area,
        final(canvas)@ == old(canvas)@ + cap_steps(
            old(canvas).area,
            rect,
            tab_bg,
            bar_bg,
            style,
        ),
{
    let ghost before = canvas@;
    let area = canvas.area;
    if let Some((left, right)) = tab_cap_glyphs(style) {
        if rect.width >= MIN_CAPPED_TAB_WIDTH {
            let colors = Style::new().fg(tab_bg).bg(bar_bg);
            draw_cap(canvas, rect.x, rect.y, left, colors);
            draw_cap(canvas, rect.right().saturating_sub(1), rect.y, right, colors);
        }
    }
    assert(canvas@ =~= before + cap_steps(area, rect, tab_bg, bar_bg, style));
}

// --- scrolling ---------------------------------------------------------------------

/// The last tab in view when tabs from `i` on have `remaining` columns.
pub open spec fn last_visible_from(i: int, widths: Seq<u16>, remaining: u16, gap: u16) -> Option<int>
    decreases widths.len() - i,
{
    if i < 0 || i >= widths.len() || remaining == 0 {
        None
    } else if widths[i] >= remaining {
        Some(i)
    } else {
        match last_visible_from(
            i + 1,
            widths,
            sat_sub(remaining as int, widths[i] + gap),
            gap,
        ) {
            Some(k) => Some(k),
            None => Some(i),
        }
    }
}

proof fn lemma_last_visible(i: int, widths: Seq<u16>, remaining: u16, gap: u16)
    requires
        0 <= i,
    ensures
        last_visible_from(i, widths, remaining, gap) matches Some(k) ==> i <= k < widths.len(),
    decreases widths.len() - i,
{
    if i < widths.len() && remaining > 0 && widths[i] < remaining {
        lemma_last_visible(i + 1, widths, sat_sub(remaining as int, widths[i] + gap), gap);
    }
}

/// The last tab in view when the first one is `start`.
pub fn last_visible_tab(start: usize, widths: &[u16], available: u16, gap: u16) -> (r: Option<usize>)
    ensures
        match r {
            Some(k) => last_visible_from(start as int, widths@, available, gap) == Some(k as int),
            None => last_visible_from(start as int, widths@, available, gap) is None,
        },
{
    let mut remaining: u16 = available;
    let mut last: Option<usize> = None;
    let mut i: usize = start;
    while i < widths.len()
        invariant
            start <= i,
            match last {
                Some(k) => last_visible_from(start as int, widths@, available, gap) == Some(
                    match last_visible_from(i as int, widths@, remaining, gap) {
                        Some(later) => later,
                        None => k as int,
                    },
                ),
                None => last_visible_from(start as int, widths@, available, gap)
                    == last_visible_from(i as int, widths@, remaining, gap),
            },
        decreases widths@.len() - i,
    {
        if remaining == 0 {
            return last;
        }
        last = Some(i);
        let width: u16 = widths[i];
        if width >= remaining {
            return last;
        }
        remaining = remaining.saturating_sub(width.saturating_add(gap));
        i = i + 1;
    }
    last
}

/// The last tab is in view when the first one is `start`.
pub open spec fn shows_the_end(start: int, widths: Seq<u16>, available: u16, gap: u16) -> bool {
    last_visible_from(start, widths, available, gap) == Some(widths.len() - 1)
}

/// `r` is the smallest scroll position that shows the last tab, or zero where
/// none does.
pub open spec fn is_max_scroll(widths: Seq<u16>, available: u16, gap: u16, r: int) -> bool {
    ||| 0 <= r < widths.len() && shows_the_end(r, widths, available, gap) && forall|s: int|
        0 <= s < r ==> !#[trigger] shows_the_end(s, widths, available, gap)
    ||| r == 0 && forall|s: int|
        0 <= s < widths.len() ==> !#[trigger] shows_the_end(s, widths, available, gap)
}

/// The furthest that the bar scrolls: just as far as the last tab needs.
pub fn max_tab_scroll(widths: &[u16], available: u16, gap: u16) -> (r: usize)
    ensures
        is_max_scroll(widths@, available, gap, r as int),
{
    let total: usize = widths.len();
    let mut start: usize = 0;
    while start < total
        invariant
            total == widths@.len(),
            start <= total,
            forall|s: int|
                0 <= s < start ==> !#[trigger] shows_the_end(s, widths@, available, gap),
        decreases total - start,
    {
        if let Some(last) = last_visible_tab(start, widths, available, gap) {
            if last == total - 1 {
                assert(shows_the_end(start as int, widths@, available, gap));
                return start;
            }
        }
        assert(!shows_the_end(start as int, widths@, available, gap));
        start = start + 1;
    }
    0
}

/// There is one furthest scroll position.
pub proof fn law_max_scroll_is_unique(
    widths: Seq<u16>,
    available: u16,
    gap: u16,
    a: int,
    b: int,
)
    requires
        is_max_scroll(widths, available, gap, a),
        is_max_scroll(widths, available, gap, b),
    ensures
        a == b,
{
    if a != b {
        if 0 <= a < widths.len() && shows_the_end(a, widths, available, gap) {
            assert(!shows_the_end(a, widths, available, gap) || b <= a);
        }
        if 0 <= b < widths.len() && shows_the_end(b, widths, available, gap) {
            assert(!shows_the_end(b, widths, available, gap) || a <= b);
        }
    }
}

/// Columns from the tab `start` up to the tab `end`, gaps among them.
pub open spec fn columns_before(widths: Seq<u16>, start: int, end: int, gap: u16) -> u16
    decreases end - start,
{
    if start >= end {
        0
    } else {
        sat_add(
            columns_before(widths, start, end - 1, gap) as int,
            sat_add(widths[end - 1] as int, gap as int) as int,
        )
    }
}

/// The bar can start at `start` and show the focused tab.
pub open spec fn reaches(start: int, focused: int, widths: Seq<u16>, available: u16, gap: u16) -> bool {
    0 <= start <= focused && columns_before(widths, start, focused, gap) < available
}

/// How far from the middle the focused tab stands when the bar starts at `start`,
/// in half columns.
pub open spec fn off_center(start: int, focused: int, widths: Seq<u16>, available: u16, gap: u16) -> int {
    let before = columns_before(widths, start, focused, gap);
    let shown = min16(widths[focused], sat_sub(available as int, before as int));
    let center = sat_add(sat_mul(before as int, 2) as int, shown as int);
    if center >= available {
        center - available
    } else {
        available - center
    }
}

/// `r` is the last of the scroll positions that bring the focused tab nearest to
/// the middle.
pub open spec fn is_centered_scroll(
    focused: int,
    widths: Seq<u16>,
    available: u16,
    gap: u16,
    r: int,
) -> bool {
    if available == 0 {
        r == focused
    } else {
        &&& reaches(r, focused, widths, available, gap)
        &&& forall|s: int| #[trigger]
            reaches(s, focused, widths, available, gap) ==> {
                let here = off_center(r, focused, widths, available, gap);
                let there = off_center(s, focused, widths, available, gap);
                here < there || (here == there && s <= r)
            }
    }
}

fn sum_before(widths: &[u16], start: usize, end: usize, gap: u16) -> (r: u16)
    requires
        start <= end <= widths@.len(),
    ensures
        r == columns_before(widths@, start as int, end as int, gap),
{
    let mut sum: u16 = 0;
    let mut i: usize = start;
    while i < end
        invariant
            start <= i <= end <= widths@.len(),
            sum == columns_before(widths@, start as int, i as int, gap),
        decreases end - i,
    {
        sum = sum.saturating_add(widths[i].saturating_add(gap));
        i = i + 1;
    }
    sum
}

/// The scroll position that brings the focused tab nearest to the middle.
pub fn centered_tab_scroll(focused: usize, widths: &[u16], available: u16, gap: u16) -> (r: usize)
    requires
        available > 0 ==> focused < widths@.len(),
    ensures
        is_centered_scroll(focused as int, widths@, available, gap, r as int),
{
    if available == 0 {
        return focused;
    }
    let mut best: usize = focused;
    let mut best_distance: u16 = u16::MAX;
    let mut found: bool = false;
    let mut start: usize = 0;
    while start <= focused
        invariant
            0 < available,
            focused < widths@.len(),
            start <= focused + 1,
            found ==> reaches(best as int, focused as int, widths@, available, gap)
                && best_distance == off_center(
                best as int,
                focused as int,
                widths@,
                available,
                gap,
            ) && best < start,
            !found ==> best_distance == u16::MAX && forall|s: int|
                0 <= s < start ==> !#[trigger] reaches(
                    s,
                    focused as int,
                    widths@,
                    available,
                    gap,
                ),
            forall|s: int|
                0 <= s < start && #[trigger] reaches(s, focused as int, widths@, available, gap)
                    ==> {
                    let there = off_center(s, focused as int, widths@, available, gap);
                    best_distance < there || (best_distance == there && s <= best)
                },
        decreases focused + 1 - start,
    {
        let before: u16 = sum_before(widths, start, focused, gap);
        if before < available {
            let shown: u16 = smaller(widths[focused], available.saturating_sub(before));
            let center: u16 = product(before, 2).saturating_add(shown);
            let distance: u16 = if center >= available {
                center - available
            } else {
                available - center
            };
            assert(distance == off_center(start as int, focused as int, widths@, available, gap));
            assert(reaches(start as int, focused as int, widths@, available, gap));
            if distance <= best_distance {
                best_distance = distance;
                best = start;
                found = true;
            }
        } else {
            assert(!reaches(start as int, focused as int, widths@, available, gap));
        }
        start = start + 1;
    }
    proof {
        assert(columns_before(widths@, focused as int, focused as int, gap) == 0);
        assert(reaches(focused as int, focused as int, widths@, available, gap));
        assert(found);
        assert forall|s: int| #[trigger]
            reaches(s, focused as int, widths@, available, gap) implies {
            let here = off_center(best as int, focused as int, widths@, available, gap);
            let there = off_center(s, focused as int, widths@, available, gap);
            here < there || (here == there && s <= best)
        } by {
            assert(0 <= s < start);
        }
    }
    best
}

// --- the right edge ------------------------------------------------------------------

/// Columns of the entries side by side, without separators.
pub open spec fn entry_columns(entries: Seq<TabStatusView>) -> u16
    decreases entries.len(),
{
    if entries.len() == 0 {
        0
    } else {
        sat_add(entry_columns(entries.drop_last()) as int, columns(entries.last().text) as int)
    }
}

/// Columns of the endpoint's decoration: its entries and the separators between
/// them. It takes none while a status strip owns the right edge.
pub open spec fn status_columns(snapshot: SnapshotView) -> u16 {
    if strip_enabled(snapshot) || snapshot.tab_bar_right.len() == 0 {
        0
    } else {
        sat_add(
            entry_columns(snapshot.tab_bar_right) as int,
            sat_mul(
                columns(snapshot.tab_bar_right_separator) as int,
                (if snapshot.tab_bar_right.len() - 1 > u16::MAX {
                    u16::MAX as int
                } else {
                    snapshot.tab_bar_right.len() - 1
                }),
            ) as int,
        )
    }
}

fn clamp_count(n: usize) -> (r: u16)
    ensures
        r == (if n > u16::MAX {
            u16::MAX as int
        } else {
            n as int
        }),
{
    if n > u16::MAX as usize {
        u16::MAX
    } else {
        n as u16
    }
}

pub fn tab_bar_status_width(snapshot: &ClientShellSnapshot) -> (w: u16)
    ensures
        w == status_columns(snapshot@),
{
    let total: usize = snapshot.tab_bar_right.len();
    if is_enabled(snapshot) || total == 0 {
        return 0;
    }
    let ghost all = snapshot@.tab_bar_right;
    let mut content: u16 = 0;
    let mut i: usize = 0;
    assert(all.take(0) =~= Seq::<TabStatusView>::empty());
    while i < total
        invariant
            total == snapshot.tab_bar_right@.len(),
            all == views(snapshot.tab_bar_right@),
            i <= total,
            content == entry_columns(all.take(i as int)),
        decreases total - i,
    {
        content = content.saturating_add(display_width(snapshot.tab_bar_right[i].text.as_str()));
        i = i + 1;
        assert(all.take(i as int).drop_last() =~= all.take(i - 1));
        assert(all.take(i as int).last() == snapshot.tab_bar_right@[i - 1]@);
    }
    assert(all.take(i as int) =~= all);
    let separator: u16 = display_width(snapshot.tab_bar_right_separator.as_str());
    content.saturating_add(product(separator, clamp_count(total - 1)))
}

/// Where the endpoint's decoration stands; nowhere when it is empty or would
/// leave the tabs too little.
pub open spec fn status_area(snapshot: SnapshotView, area: Rect) -> Option<Rect> {
    let width = status_columns(snapshot);
    if width == 0 || sat_sub(area.width as int, sat_add(width as int, 1) as int)
        < MIN_TAB_STRIP_WIDTH {
        None
    } else {
        Some(Rect::at(sat_sub(area.right_edge() as int, width as int), area.y, width, 1))
    }
}

pub fn tab_bar_status_area(snapshot: &ClientShellSnapshot, area: Rect) -> (r: Option<Rect>)
    ensures
        r == status_area(snapshot@, area),
{
    let width: u16 = tab_bar_status_width(snapshot);
    if width == 0 {
        return None;
    }
    let reserved: u16 = width.saturating_add(1);
    if area.width.saturating_sub(reserved) < MIN_TAB_STRIP_WIDTH {
        return None;
    }
    Some(Rect::new(area.right().saturating_sub(width), area.y, width, 1))
}

/// Columns that a status strip can have: all but what the tabs keep and a gap.
pub open spec fn strip_room(area: Rect) -> u16 {
    sat_sub(area.width as int, MIN_TAB_STRIP_WIDTH + 1)
}

/// Where the status strip stands; nowhere when it has nothing to show or no
/// room.
pub open spec fn strip_area(snapshot: SnapshotView, area: Rect) -> Option<Rect> {
    let width = min16(strip_wants(snapshot, strip_room(area)), strip_room(area));
    if width == 0 {
        None
    } else {
        Some(Rect::at(sat_sub(area.right_edge() as int, width as int), area.y, width, 1))
    }
}

pub fn status_strip_area(snapshot: &ClientShellSnapshot, area: Rect) -> (r: Option<Rect>)
    ensures
        r == strip_area(snapshot@, area),
{
    let room: u16 = area.width.saturating_sub(MIN_TAB_STRIP_WIDTH + 1);
    let width: u16 = smaller(status_strip_width(snapshot, room), room);
    if width == 0 {
        return None;
    }
    Some(Rect::new(area.right().saturating_sub(width), area.y, width, 1))
}

/// Columns that a decoration takes from the tabs, with the gap before it.
pub open spec fn reserved_columns(zone: Option<Rect>) -> u16 {
    match zone {
        Some(rect) => sat_add(rect.width as int, 1),
        None => 0,
    }
}

/// What is left of the bar for tabs.
pub open spec fn content_area(snapshot: SnapshotView, area: Rect) -> Rect {
    let taken = if strip_enabled(snapshot) {
        reserved_columns(strip_area(snapshot, area))
    } else {
        reserved_columns(status_area(snapshot, area))
    };
    Rect { width: sat_sub(area.width as int, taken as int), ..area }
}

pub fn tab_bar_content_area(snapshot: &ClientShellSnapshot, area: Rect) -> (r: Rect)
    ensures
        r == content_area(snapshot@, area),
{
    let zone = if is_enabled(snapshot) {
        status_strip_area(snapshot, area)
    } else {
        tab_bar_status_area(snapshot, area)
    };
    let reserved: u16 = match zone {
        Some(rect) => rect.width.saturating_add(1),
        None => 0,
    };
    Rect { width: area.width.saturating_sub(reserved), ..area }
}

/// The tabs always keep their least width, or the whole bar where it is
/// narrower.
pub proof fn law_tabs_keep_their_room(snapshot: SnapshotView, area: Rect)
    ensures
        content_area(snapshot, area).width >= min16(area.width, MIN_TAB_STRIP_WIDTH),
        content_area(snapshot, area).x == area.x,
        content_area(snapshot, area).width <= area.width,
{
}

/// A configured strip owns the right edge: the endpoint's decoration then takes
/// no columns, whatever the strip resolves to.
pub proof fn law_strip_owns_the_right_edge(snapshot: SnapshotView, area: Rect, palette: Palette)
    requires
        strip_enabled(snapshot),
    ensures
        status_columns(snapshot) == 0,
        status_area(snapshot, area) is None,
        status_steps(snapshot, area, palette).len() == 0,
{
}

/// The style of an entry.
pub open spec fn entry_style(accent: bool, palette: Palette) -> Style {
    if accent {
        Style::plain().in_color(palette.panel_contrast_fg).over(palette.accent).adding(
            Modifier { bits: BOLD },
        )
    } else {
        Style::plain().in_color(palette.overlay1).over(palette.panel_bg)
    }
}

/// The column after the first `n` entries.
pub open spec fn entry_x(snapshot: SnapshotView, x: u16, n: int) -> u16
    decreases n, 0int,
{
    if n <= 0 {
        x
    } else {
        sat_add(
            entry_text_x(snapshot, x, n - 1) as int,
            columns(snapshot.tab_bar_right[n - 1].text) as int,
        )
    }
}

/// The column where the text of entry `n` starts, after its separator.
pub open spec fn entry_text_x(snapshot: SnapshotView, x: u16, n: int) -> u16
    decreases n, 1int,
{
    let at = entry_x(snapshot, x, n);
    if n > 0 {
        sat_add(at as int, columns(snapshot.tab_bar_right_separator) as int)
    } else {
        at
    }
}

/// The steps that draw entry `n`, with the separator before it.
pub open spec fn entry_steps(
    snapshot: SnapshotView,
    x: u16,
    y: u16,
    palette: Palette,
    n: int,
) -> Seq<DrawOpView> {
    let separator = snapshot.tab_bar_right_separator;
    let entry = snapshot.tab_bar_right[n];
    (if n > 0 && columns(separator) > 0 {
        seq![
            DrawOpView::Text {
                x: entry_x(snapshot, x, n),
                y,
                width: columns(separator),
                text: separator,
                style: Style::plain().in_color(palette.overlay0).over(palette.panel_bg),
            },
        ]
    } else {
        Seq::empty()
    }).push(
        DrawOpView::Text {
            x: entry_text_x(snapshot, x, n),
            y,
            width: columns(entry.text),
            text: entry.text,
            style: entry_style(entry.accent, palette),
        },
    )
}

/// The steps that draw the first `n` entries.
pub open spec fn entries_steps(
    snapshot: SnapshotView,
    x: u16,
    y: u16,
    palette: Palette,
    n: int,
) -> Seq<DrawOpView>
    decreases n,
{
    if n <= 0 {
        Seq::empty()
    } else {
        entries_steps(snapshot, x, y, palette, n - 1) + entry_steps(snapshot, x, y, palette, n - 1)
    }
}

/// The steps that draw the endpoint's decoration.
pub open spec fn status_steps(snapshot: SnapshotView, area: Rect, palette: Palette) -> Seq<
    DrawOpView,
> {
    match status_area(snapshot, area) {
        Some(zone) => entries_steps(
            snapshot,
            zone.x,
            area.y,
            palette,
            snapshot.tab_bar_right.len() as int,
        ),
        None => Seq::empty(),
    }
}

/// Draw the endpoint's decoration at the right edge.
pub fn render_tab_bar_status(
    canvas: &mut Canvas,
    area: Rect,
    snapshot: &ClientShellSnapshot,
    palette: &Palette,
)
    ensures
        final(canvas).area == old(canvas).area,
        final(canvas)@ == old(canvas)@ + status_steps(snapshot@, area, *palette),
{
    let ghost before = canvas@;
    let ghost view = snapshot@;
    let zone = match tab_bar_status_area(snapshot, area) {
        Some(zone) => zone,
        None => {
            assert(canvas@ =~= before + status_steps(view, area, *palette));
            return;
        },
    };
    let separator: u16 = display_width(snapshot.tab_bar_right_separator.as_str());
    let total: usize = snapshot.tab_bar_right.len();
    let mut x: u16 = zone.x;
    let mut n: usize = 0;
    assert(before + entries_steps(view, zone.x, area.y, *palette, 0) =~= before);
    while n < total
        invariant
            canvas.area == old(canvas).area,
            view == snapshot@,
            total == snapshot.tab_bar_right@.len(),
            separator == columns(view.tab_bar_right_separator),
            n <= total,
            x == entry_x(view, zone.x, n as int),
            canvas@ == before + entries_steps(view, zone.x, area.y, *palette, n as int),
        decreases total - n,
    {
        let ghost drawn = entries_steps(view, zone.x, area.y, *palette, n as int);
        if n > 0 && separator > 0 {
            canvas.put_text(
                x,
                area.y,
                separator,
                snapshot.tab_bar_right_separator.as_str(),
                Style::new().fg(palette.overlay0).bg(palette.panel_bg),
            );
            x = x.saturating_add(separator);
        }
        assert(x == entry_text_x(view, zone.x, n as int));
        let entry = &snapshot.tab_bar_right[n];
        assert(entry@ == view.tab_bar_right[n as int]);
        let width: u16 = display_width(entry.text.as_str());
        let style = if entry.accent {
            Style::new().fg(palette.panel_contrast_fg).bg(palette.accent).add_modifier(
                Modifier { bits: BOLD },
            )
        } else {
            Style::new().fg(palette.overlay1).bg(palette.panel_bg)
        };
        canvas.put_text(x, area.y, width, entry.text.as_str(), style);
        x = x.saturating_add(width);
        assert(canvas@ =~= before + (drawn + entry_steps(
            view,
            zone.x,
            area.y,
            *palette,
            n as int,
        )));
        n = n + 1;
    }
}

// --- dragging ------------------------------------------------------------------------

/// The first place of a tab id among the tabs.
pub open spec fn tab_place(tabs: Seq<TabView>, id: Seq<char>, i: int) -> Option<int>
    decreases tabs.len() - i,
{
    if i < 0 || i >= tabs.len() {
        None
    } else if tabs[i].tab_id == id {
        Some(i)
    } else {
        tab_place(tabs, id, i + 1)
    }
}

/// The tabs in view with their places, as the hit map has them.
pub open spec fn tabs_in_view(hits: Seq<(Rect, Seq<char>)>, tabs: Seq<TabView>) -> Seq<(int, Rect)>
    decreases hits.len(),
{
    if hits.len() == 0 {
        Seq::empty()
    } else {
        let before = tabs_in_view(hits.drop_last(), tabs);
        match tab_place(tabs, hits.last().1, 0) {
            Some(place) => before.push((place, hits.last().0)),
            None => before,
        }
    }
}

/// The first tab in view at place `at`, from `i` on.
pub open spec fn view_of(shown: Seq<(int, Rect)>, at: int, i: int) -> Option<Rect>
    decreases shown.len() - i,
{
    if i < 0 || i >= shown.len() {
        None
    } else if shown[i].0 == at {
        Some(shown[i].1)
    } else {
        view_of(shown, at, i + 1)
    }
}

/// Where a dragged tab would drop: before the tab now at the target place, at
/// the end of the bar, or at the scroll button towards a place out of view.
pub open spec fn drop_x(hits: HitsView, tabs: Seq<TabView>, target: int) -> Option<u16> {
    let shown = tabs_in_view(hits.tabs, tabs);
    if shown.len() == 0 {
        None
    } else if target == 0 {
        Some(
            if shown[0].0 == 0 {
                shown[0].1.x
            } else {
                hits.tab_scroll_left.right_edge()
            },
        )
    } else if view_of(shown, target, 0) is Some {
        Some(sat_sub(view_of(shown, target, 0)->0.x as int, 1))
    } else if target >= tabs.len() {
        Some(
            if shown.last().0 + 1 >= tabs.len() {
                shown.last().1.right_edge()
            } else {
                sat_sub(hits.tab_scroll_right.x as int, 1)
            },
        )
    } else {
        None
    }
}

fn find_tab(tabs: &[&ClientShellTab], id: &str) -> (r: Option<usize>)
    ensures
        match r {
            Some(i) => tab_place(views(tabs@), id@, 0) == Some(i as int) && i < tabs@.len(),
            None => tab_place(views(tabs@), id@, 0) is None,
        },
{
    let mut i: usize = 0;
    while i < tabs.len()
        invariant
            i <= tabs@.len(),
            tab_place(views(tabs@), id@, 0) == tab_place(views(tabs@), id@, i as int),
        decreases tabs@.len() - i,
    {
        assert(views(tabs@)[i as int] == tabs@[i as int]@);
        if same_text(tabs[i].tab_id.as_str(), id) {
            return Some(i);
        }
        i = i + 1;
    }
    None
}

/// Places and rectangles as plain numbers.
pub open spec fn counted(shown: Seq<(usize, Rect)>) -> Seq<(int, Rect)> {
    Seq::new(shown.len(), |i: int| (shown[i].0 as int, shown[i].1))
}

/// The column of the drop indicator for a dragged tab.
pub fn tab_drop_indicator_x(hits: &ShellHitMap, tabs: &[&ClientShellTab], insert_index: usize) -> (r:
    Option<u16>)
    ensures
        r == drop_x(hits@, views(tabs@), insert_index as int),
{
    let ghost all = hits@.tabs;
    let ghost view = views(tabs@);
    let mut shown: Vec<(usize, Rect)> = Vec::new();
    let mut i: usize = 0;
    proof {
        assert(all.take(0) =~= Seq::<(Rect, Seq<char>)>::empty());
        assert(counted(shown@) =~= Seq::<(int, Rect)>::empty());
    }
    while i < hits.tabs.len()
        invariant
            i <= hits.tabs@.len(),
            all == views(hits.tabs@),
            view == views(tabs@),
            counted(shown@) == tabs_in_view(all.take(i as int), view),
            forall|k: int| 0 <= k < shown@.len() ==> (#[trigger] shown@[k]).0 < tabs@.len(),
        decreases hits.tabs@.len() - i,
    {
        proof {
            assert(all.take(i as int + 1).drop_last() =~= all.take(i as int));
            assert(all.take(i as int + 1).last() == all[i as int]);
            assert(all[i as int] == hits.tabs@[i as int]@);
        }
        let ghost before = shown@;
        if let Some(place) = find_tab(tabs, hits.tabs[i].1.as_str()) {
            shown.push((place, hits.tabs[i].0));
            assert(counted(shown@) =~= counted(before).push((place as int, hits.tabs@[i as int].0)));
        }
        i = i + 1;
    }
    assert(all.take(i as int) =~= all);
    let ghost seen = counted(shown@);
    let count: usize = shown.len();
    if count == 0 {
        return None;
    }
    assert(seen[0] == (shown@[0].0 as int, shown@[0].1));
    assert(seen.last() == (shown@[count - 1].0 as int, shown@[count - 1].1));
    if insert_index == 0 {
        return Some(
            if shown[0].0 == 0 {
                shown[0].1.x
            } else {
                hits.tab_scroll_left.right()
            },
        );
    }
    let mut k: usize = 0;
    while k < count
        invariant
            count == shown@.len(),
            seen == counted(shown@),
            k <= count,
            count > 0,
            insert_index > 0,
            seen == tabs_in_view(hits@.tabs, views(tabs@)),
            view_of(seen, insert_index as int, 0) == view_of(
                seen,
                insert_index as int,
                k as int,
            ),
        decreases count - k,
    {
        if shown[k].0 == insert_index {
            return Some(shown[k].1.x.saturating_sub(1));
        }
        k = k + 1;
    }
    if insert_index >= tabs.len() {
        return Some(
            if shown[count - 1].0 + 1 >= tabs.len() {
                shown[count - 1].1.right()
            } else {
                hits.tab_scroll_right.x.saturating_sub(1)
            },
        );
    }
    None
}

// --- layout ---------------------------------------------------------------------------

/// The tabs of the focused workspace.
pub open spec fn bar_tabs(snapshot: SnapshotView) -> Seq<TabView> {
    snapshot.tabs.filter(
        |tab: TabView| snapshot.focused_workspace_id == Some(tab.workspace_id),
    )
}

fn focused_tabs<'a>(snapshot: &'a ClientShellSnapshot) -> (r: Vec<&'a ClientShellTab>)
    ensures
        views(r@) == bar_tabs(snapshot@),
{
    let ghost view = snapshot@;
    let ghost keep = |tab: TabView| view.focused_workspace_id == Some(tab.workspace_id);
    let mut r: Vec<&'a ClientShellTab> = Vec::new();
    let mut i: usize = 0;
    proof {
        reveal(Seq::filter);
        assert(view.tabs.take(0) =~= Seq::<TabView>::empty());
        lemma_views_empty::<&'a ClientShellTab>();
    }
    while i < snapshot.tabs.len()
        invariant
            i <= snapshot.tabs@.len(),
            view == snapshot@,
            keep == (|tab: TabView| view.focused_workspace_id == Some(tab.workspace_id)),
            views(r@) == view.tabs.take(i as int).filter(keep),
        decreases snapshot.tabs@.len() - i,
    {
        let tab = &snapshot.tabs[i];
        proof {
            reveal(Seq::filter);
            assert(view.tabs.take(i as int + 1).drop_last() =~= view.tabs.take(i as int));
            assert(view.tabs.take(i as int + 1).last() == tab@);
        }
        let shown = match &snapshot.focused_workspace_id {
            Some(id) => same_text(id.as_str(), tab.workspace_id.as_str()),
            None => false,
        };
        assert(shown == keep(tab@));
        if shown {
            proof {
                lemma_views_push(r@, tab);
            }
            r.push(tab);
        }
        i = i + 1;
    }
    assert(view.tabs.take(i as int) =~= view.tabs);
    r
}

/// The columns that each tab wants.
pub open spec fn wanted(tabs: Seq<TabView>) -> Seq<u16> {
    Seq::new(tabs.len(), |i: int| tab_columns(label_of(tabs[i])))
}

fn tab_widths(tabs: &[&ClientShellTab]) -> (r: Vec<u16>)
    ensures
        r@ == wanted(views(tabs@)),
{
    let mut r: Vec<u16> = Vec::new();
    let mut i: usize = 0;
    while i < tabs.len()
        invariant
            i <= tabs@.len(),
            r@.len() == i,
            forall|k: int| 0 <= k < i ==> #[trigger] r@[k] == wanted(views(tabs@))[k],
        decreases tabs@.len() - i,
    {
        assert(views(tabs@)[i as int] == tabs@[i as int]@);
        r.push(tab_width(tab_label(tabs[i]).as_str()));
        i = i + 1;
    }
    assert(r@ =~= wanted(views(tabs@)));
    r
}

/// Columns of all tabs side by side, without gaps.
pub open spec fn total_columns(widths: Seq<u16>) -> u16
    decreases widths.len(),
{
    if widths.len() == 0 {
        0
    } else {
        sat_add(total_columns(widths.drop_last()) as int, widths.last() as int)
    }
}

/// Columns of the gaps between so many tabs.
pub open spec fn gap_columns(count: nat, gap: u16) -> u16 {
    sat_mul(
        (if count == 0 {
            0
        } else if count - 1 > u16::MAX {
            u16::MAX as int
        } else {
            count - 1
        }),
        gap as int,
    )
}

/// Columns of the control that opens a tab, where the mouse can use it.
pub open spec fn new_tab_columns(mouse: bool) -> u16 {
    if mouse {
        NEW_TAB_WIDTH
    } else {
        0
    }
}

/// The bar does not hold all tabs, and has room to scroll.
pub open spec fn overflows(widths: Seq<u16>, content: Rect, mouse: bool, gap: u16) -> bool {
    let all = sat_add(
        sat_add(total_columns(widths) as int, gap_columns(widths.len(), gap) as int) as int,
        new_tab_columns(mouse) as int,
    );
    all > content.width && (!mouse || content.width >= MIN_TAB_STRIP_WIDTH)
}

/// Columns for tabs, beside the controls.
pub open spec fn tab_room(content: Rect, overflow: bool, mouse: bool) -> u16 {
    if overflow && mouse {
        sat_sub(content.width as int, NEW_TAB_WIDTH + TAB_SCROLL_BUTTON_WIDTH * 2)
    } else {
        sat_sub(content.width as int, new_tab_columns(mouse) as int)
    }
}

fn measure_overflow(widths: &[u16], content: Rect, mouse: bool, gap: u16) -> (r: bool)
    ensures
        r == overflows(widths@, content, mouse, gap),
{
    let mut sum: u16 = 0;
    let mut i: usize = 0;
    let total: usize = widths.len();
    assert(widths@.take(0) =~= Seq::<u16>::empty());
    while i < total
        invariant
            total == widths@.len(),
            i <= total,
            sum == total_columns(widths@.take(i as int)),
        decreases total - i,
    {
        sum = sum.saturating_add(widths[i]);
        i = i + 1;
        assert(widths@.take(i as int).drop_last() =~= widths@.take(i - 1));
    }
    assert(widths@.take(i as int) =~= widths@);
    let gaps: u16 = product(
        clamp_count(
            if total == 0 {
                0
            } else {
                total - 1
            },
        ),
        gap,
    );
    let controls: u16 = if mouse {
        NEW_TAB_WIDTH
    } else {
        0
    };
    let all: u16 = sum.saturating_add(gaps).saturating_add(controls);
    all > content.width && (!mouse || content.width >= MIN_TAB_STRIP_WIDTH)
}

fn measure_room(content: Rect, overflow: bool, mouse: bool) -> (r: u16)
    ensures
        r == tab_room(content, overflow, mouse),
{
    if overflow && mouse {
        content.width.saturating_sub(NEW_TAB_WIDTH + TAB_SCROLL_BUTTON_WIDTH * 2)
    } else if mouse {
        content.width.saturating_sub(NEW_TAB_WIDTH)
    } else {
        content.width
    }
}

/// The furthest scroll position.
pub open spec fn max_scroll(widths: Seq<u16>, available: u16, gap: u16) -> int {
    choose|r: int| is_max_scroll(widths, available, gap, r)
}

/// The scroll position that centers the focused tab.
pub open spec fn centered_scroll(focused: int, widths: Seq<u16>, available: u16, gap: u16) -> int {
    choose|r: int| is_centered_scroll(focused, widths, available, gap, r)
}

/// There is one scroll position that centers the focused tab.
pub proof fn law_centered_scroll_is_unique(
    focused: int,
    widths: Seq<u16>,
    available: u16,
    gap: u16,
    a: int,
    b: int,
)
    requires
        is_centered_scroll(focused, widths, available, gap, a),
        is_centered_scroll(focused, widths, available, gap, b),
    ensures
        a == b,
{
    if available > 0 {
        assert(reaches(a, focused, widths, available, gap));
        assert(reaches(b, focused, widths, available, gap));
    }
}

/// The first focused tab from `i` on.
pub open spec fn focused_place(tabs: Seq<TabView>, i: int) -> Option<int>
    decreases tabs.len() - i,
{
    if i < 0 || i >= tabs.len() {
        None
    } else if tabs[i].focused {
        Some(i)
    } else {
        focused_place(tabs, i + 1)
    }
}

fn find_focused(tabs: &[&ClientShellTab]) -> (r: Option<usize>)
    ensures
        match r {
            Some(i) => focused_place(views(tabs@), 0) == Some(i as int) && i < tabs@.len(),
            None => focused_place(views(tabs@), 0) is None,
        },
{
    let mut i: usize = 0;
    while i < tabs.len()
        invariant
            i <= tabs@.len(),
            focused_place(views(tabs@), 0) == focused_place(views(tabs@), i as int),
        decreases tabs@.len() - i,
    {
        assert(views(tabs@)[i as int] == tabs@[i as int]@);
        if tabs[i].focused {
            return Some(i);
        }
        i = i + 1;
    }
    None
}

/// The scroll position of a bar: none where all tabs fit; the focused tab in the
/// middle where it is to be revealed; else where it was, as far as that goes.
pub open spec fn scroll_of(
    tabs: Seq<TabView>,
    overflow: bool,
    available: u16,
    gap: u16,
    scroll: int,
    reveal: bool,
) -> int {
    let widths = wanted(tabs);
    let furthest = max_scroll(widths, available, gap);
    if !overflow {
        0
    } else if reveal {
        match focused_place(tabs, 0) {
            Some(focused) => {
                let centered = centered_scroll(focused, widths, available, gap);
                if furthest < centered {
                    furthest
                } else {
                    centered
                }
            },
            None => scroll,
        }
    } else if furthest < scroll {
        furthest
    } else {
        scroll
    }
}

fn scroll_position(
    tabs: &[&ClientShellTab],
    widths: &[u16],
    overflow: bool,
    available: u16,
    gap: u16,
    scroll: usize,
    reveal: bool,
) -> (r: usize)
    requires
        widths@ == wanted(views(tabs@)),
    ensures
        r == scroll_of(views(tabs@), overflow, available, gap, scroll as int, reveal),
{
    if !overflow {
        return 0;
    }
    let furthest: usize = max_tab_scroll(widths, available, gap);
    proof {
        law_max_scroll_is_unique(
            widths@,
            available,
            gap,
            furthest as int,
            max_scroll(widths@, available, gap),
        );
    }
    let wish: usize = if reveal {
        match find_focused(tabs) {
            Some(focused) => {
                let centered: usize = centered_tab_scroll(focused, widths, available, gap);
                proof {
                    law_centered_scroll_is_unique(
                        focused as int,
                        widths@,
                        available,
                        gap,
                        centered as int,
                        centered_scroll(focused as int, widths@, available, gap),
                    );
                }
                centered
            },
            None => {
                return scroll;
            },
        }
    } else {
        scroll
    };
    if furthest < wish {
        furthest
    } else {
        wish
    }
}

/// The tabs from `i` on that are drawn between `x` and `right`, with their
/// rectangles; one that does not fit is clipped, and ends the row.
pub open spec fn placed_from(
    widths: Seq<u16>,
    i: int,
    x: u16,
    right: u16,
    y: u16,
    gap: u16,
) -> Seq<(int, Rect)>
    decreases widths.len() - i,
{
    if i < 0 || i >= widths.len() || sat_sub(right as int, x as int) == 0 || widths[i] == 0 {
        Seq::empty()
    } else {
        let width = min16(widths[i], sat_sub(right as int, x as int));
        let here = seq![(i, Rect::at(x, y, width, 1))];
        if width < widths[i] {
            here
        } else {
            here + placed_from(widths, i + 1, sat_add(x as int, width + gap), right, y, gap)
        }
    }
}

/// The column after the tabs that are drawn.
pub open spec fn placed_end(widths: Seq<u16>, i: int, x: u16, right: u16, gap: u16) -> u16
    decreases widths.len() - i,
{
    if i < 0 || i >= widths.len() || sat_sub(right as int, x as int) == 0 || widths[i] == 0 {
        x
    } else {
        let width = min16(widths[i], sat_sub(right as int, x as int));
        let next = sat_add(x as int, width + gap);
        if width < widths[i] {
            next
        } else {
            placed_end(widths, i + 1, next, right, gap)
        }
    }
}

fn place_tabs(widths: &[u16], scroll: usize, x: u16, right: u16, y: u16, gap: u16) -> (r: (
    Vec<(usize, Rect)>,
    u16,
))
    ensures
        counted(r.0@) == placed_from(widths@, scroll as int, x, right, y, gap),
        r.1 == placed_end(widths@, scroll as int, x, right, gap),
        forall|k: int| 0 <= k < r.0@.len() ==> (#[trigger] r.0@[k]).0 < widths@.len(),
        r.0@.len() > 0 ==> r.0@[0].0 == scroll,
{
    let ghost all = placed_from(widths@, scroll as int, x, right, y, gap);
    let mut placed: Vec<(usize, Rect)> = Vec::new();
    let mut at: u16 = x;
    let mut i: usize = scroll;
    assert(counted(placed@) =~= Seq::<(int, Rect)>::empty());
    assert(counted(placed@) + all =~= all);
    while i < widths.len()
        invariant
            scroll <= i,
            all == placed_from(widths@, scroll as int, x, right, y, gap),
            counted(placed@) + placed_from(widths@, i as int, at, right, y, gap) == all,
            placed_end(widths@, scroll as int, x, right, gap) == placed_end(
                widths@,
                i as int,
                at,
                right,
                gap,
            ),
            forall|k: int| 0 <= k < placed@.len() ==> (#[trigger] placed@[k]).0 < widths@.len(),
            placed@.len() > 0 ==> placed@[0].0 == scroll,
            placed@.len() == 0 ==> i == scroll,
        decreases widths@.len() - i,
    {
        let wants: u16 = widths[i];
        let width: u16 = smaller(wants, right.saturating_sub(at));
        if width == 0 {
            assert(counted(placed@) + placed_from(widths@, i as int, at, right, y, gap)
                =~= counted(placed@));
            return (placed, at);
        }
        let rect = Rect::new(at, y, width, 1);
        let ghost before = placed@;
        let ghost here = at;
        placed.push((i, rect));
        at = at.saturating_add(width.saturating_add(gap));
        proof {
            assert(counted(placed@) =~= counted(before).push((i as int, rect)));
            let rest = placed_from(widths@, i as int + 1, at, right, y, gap);
            assert(at == sat_add(here as int, width + gap));
            if width < wants {
                assert(counted(placed@) =~= counted(before) + placed_from(
                    widths@,
                    i as int,
                    here,
                    right,
                    y,
                    gap,
                ));
            } else {
                assert(counted(placed@) + rest =~= counted(before) + (seq![(i as int, rect)]
                    + rest));
            }
        }
        if width < wants {
            return (placed, at);
        }
        i = i + 1;
    }
    assert(counted(placed@) + placed_from(widths@, i as int, at, right, y, gap) =~= counted(
        placed@,
    ));
    (placed, at)
}

// --- drawing --------------------------------------------------------------------------

/// The colors of a tab.
pub open spec fn tab_look(tab: TabView, palette: Palette) -> (Color, Color) {
    if tab.focused {
        (palette.panel_contrast_fg, palette.accent)
    } else if tab.custom_label {
        (palette.overlay1, palette.surface0)
    } else {
        (palette.overlay0, palette.surface0)
    }
}

/// The style of a tab: the focused one in the accent color, and in bold where
/// its label is the user's; others muted, and dim where theirs is not.
pub open spec fn tab_paint(tab: TabView, palette: Palette) -> Style {
    let look = tab_look(tab, palette);
    let plain = Style::plain().in_color(look.0).over(look.1);
    if tab.focused && tab.custom_label {
        plain.adding(Modifier { bits: BOLD })
    } else if !tab.focused && !tab.custom_label {
        plain.adding(Modifier { bits: DIM })
    } else {
        plain
    }
}

/// A label with blanks at both ends, so that it stands in the middle.
pub open spec fn centered_label(label: Seq<char>, width: u16) -> Seq<char> {
    let padding = sat_sub(width as int, columns(label) as int);
    let left = padding / 2;
    blanks(left as nat) + label + blanks((padding - left) as nat)
}

/// The steps that draw one tab.
pub open spec fn tab_steps(
    area: Rect,
    tab: TabView,
    rect: Rect,
    palette: Palette,
    style: TabCapStyleConfig,
) -> Seq<DrawOpView> {
    seq![
        DrawOpView::Text {
            x: rect.x,
            y: rect.y,
            width: rect.width,
            text: centered_label(label_of(tab), rect.width),
            style: tab_paint(tab, palette),
        },
    ] + cap_steps(area, rect, tab_look(tab, palette).1, palette.panel_bg, style)
}

fn draw_tab(
    canvas: &mut Canvas,
    tab: &ClientShellTab,
    rect: Rect,
    palette: &Palette,
    style: TabCapStyleConfig,
)
    ensures
        final(canvas).area == old(canvas).area,
        final(canvas)@ == old(canvas)@ + tab_steps(
            old(canvas).area,
            tab@,
            rect,
            *palette,
            style,
        ),
{
    let ghost before = canvas@;
    let ghost area = canvas.area;
    let label = tab_label(tab);
    let (fg, bg) = if tab.focused {
        (palette.panel_contrast_fg, palette.accent)
    } else if tab.custom_label {
        (palette.overlay1, palette.surface0)
    } else {
        (palette.overlay0, palette.surface0)
    };
    let plain = Style::new().fg(fg).bg(bg);
    let paint = if tab.focused && tab.custom_label {
        plain.add_modifier(Modifier { bits: BOLD })
    } else if !tab.focused && !tab.custom_label {
        plain.add_modifier(Modifier { bits: DIM })
    } else {
        plain
    };
    let padding: u16 = rect.width.saturating_sub(display_width(label.as_str()));
    let left: u16 = padding / 2;
    let mut text = String::new();
    push_blanks(&mut text, left as usize);
    push_text(&mut text, label.as_str());
    push_blanks(&mut text, (padding - left) as usize);
    assert(text@ =~= centered_label(label_of(tab@), rect.width));
    canvas.put_text(rect.x, rect.y, rect.width, text.as_str(), paint);
    draw_tab_caps(canvas, rect, bg, palette.panel_bg, style);
    assert(canvas@ =~= before + tab_steps(area, tab@, rect, *palette, style));
}

/// The steps that draw the first `n` of the placed tabs.
pub open spec fn tabs_steps(
    area: Rect,
    tabs: Seq<TabView>,
    placed: Seq<(int, Rect)>,
    palette: Palette,
    style: TabCapStyleConfig,
    n: int,
) -> Seq<DrawOpView>
    decreases n,
{
    if n <= 0 {
        Seq::empty()
    } else {
        tabs_steps(area, tabs, placed, palette, style, n - 1) + tab_steps(
            area,
            tabs[placed[n - 1].0],
            placed[n - 1].1,
            palette,
            style,
        )
    }
}

/// The hits of the placed tabs.
pub open spec fn tab_hits(tabs: Seq<TabView>, placed: Seq<(int, Rect)>) -> Seq<(Rect, Seq<char>)> {
    Seq::new(placed.len(), |k: int| (placed[k].1, tabs[placed[k].0].tab_id))
}

fn draw_tabs(
    canvas: &mut Canvas,
    hits: &mut ShellHitMap,
    tabs: &[&ClientShellTab],
    placed: &[(usize, Rect)],
    palette: &Palette,
    style: TabCapStyleConfig,
)
    requires
        forall|k: int| 0 <= k < placed@.len() ==> (#[trigger] placed@[k]).0 < tabs@.len(),
    ensures
        final(canvas).area == old(canvas).area,
        final(canvas)@ == old(canvas)@ + tabs_steps(
            old(canvas).area,
            views(tabs@),
            counted(placed@),
            *palette,
            style,
            placed@.len() as int,
        ),
        final(hits)@ == (HitsView {
            tabs: old(hits)@.tabs + tab_hits(views(tabs@), counted(placed@)),
            ..old(hits)@
        }),
{
    let ghost before = canvas@;
    let ghost area = canvas.area;
    let ghost view = views(tabs@);
    let ghost all = counted(placed@);
    let ghost start = hits@;
    let ghost made = tab_hits(view, all);
    let mut n: usize = 0;
    proof {
        assert(before + tabs_steps(area, view, all, *palette, style, 0) =~= before);
        assert(start.tabs + made.take(0) =~= start.tabs);
    }
    while n < placed.len()
        invariant
            canvas.area == area,
            area == old(canvas).area,
            view == views(tabs@),
            all == counted(placed@),
            made == tab_hits(view, all),
            n <= placed@.len(),
            forall|k: int| 0 <= k < placed@.len() ==> (#[trigger] placed@[k]).0 < tabs@.len(),
            canvas@ == before + tabs_steps(area, view, all, *palette, style, n as int),
            hits@ == (HitsView { tabs: start.tabs + made.take(n as int), ..start }),
        decreases placed@.len() - n,
    {
        let place: usize = placed[n].0;
        let rect = placed[n].1;
        let tab = tabs[place];
        let ghost drawn = tabs_steps(area, view, all, *palette, style, n as int);
        assert(view[place as int] == tab@);
        draw_tab(canvas, tab, rect, palette, style);
        assert(canvas@ =~= before + (drawn + tab_steps(area, tab@, rect, *palette, style)));
        let hit = (rect, tab.tab_id.clone());
        proof {
            lemma_views_push(hits.tabs@, hit);
            assert(made[n as int] == hit@);
            assert((start.tabs + made.take(n as int)).push(made[n as int]) =~= start.tabs
                + made.take(n as int + 1));
        }
        hits.tabs.push(hit);
        n = n + 1;
    }
    assert(made.take(n as int) =~= made);
}

/// A scroll button is bright while there is something to scroll to.
pub open spec fn button_style(live: bool, palette: Palette) -> Style {
    Style::plain().in_color(
        if live {
            palette.overlay1
        } else {
            palette.overlay0
        },
    ).over(palette.surface0)
}

/// A bar that is laid out.
pub struct BarView {
    pub tabs: Seq<TabView>,
    pub content: Rect,
    /// Scroll buttons are drawn.
    pub buttons: bool,
    pub scroll: int,
    pub tab_right: u16,
    pub placed: Seq<(int, Rect)>,
    pub end_x: u16,
    pub left_button: Rect,
    pub right_button: Rect,
    pub new_tab: Rect,
}

/// Where everything on the bar stands.
pub open spec fn bar_of(
    snapshot: SnapshotView,
    area: Rect,
    mouse: bool,
    style: TabCapStyleConfig,
    scroll: int,
    reveal: bool,
) -> BarView {
    let tabs = bar_tabs(snapshot);
    let widths = wanted(tabs);
    let content = content_area(snapshot, area);
    let gap = gap_of(style);
    let overflow = overflows(widths, content, mouse, gap);
    let buttons = overflow && mouse;
    let right = content.right_edge();
    let at = scroll_of(tabs, overflow, tab_room(content, overflow, mouse), gap, scroll, reveal);
    let left_button = Rect::at(
        content.x,
        content.y,
        min16(TAB_SCROLL_BUTTON_WIDTH, content.width),
        1,
    );
    let start_x = if buttons {
        left_button.right_edge()
    } else {
        content.x
    };
    let tab_right = if buttons {
        sat_sub(right as int, NEW_TAB_WIDTH + TAB_SCROLL_BUTTON_WIDTH)
    } else {
        sat_sub(right as int, new_tab_columns(mouse) as int)
    };
    let end_x = placed_end(widths, at, start_x, tab_right, gap);
    let right_button = Rect::at(tab_right, area.y, TAB_SCROLL_BUTTON_WIDTH, 1);
    BarView {
        tabs,
        content,
        buttons,
        scroll: at,
        tab_right,
        placed: placed_from(widths, at, start_x, tab_right, area.y, gap),
        end_x,
        left_button,
        right_button,
        new_tab: if buttons {
            Rect::at(
                right_button.right_edge(),
                area.y,
                min16(sat_sub(right as int, right_button.right_edge() as int), NEW_TAB_WIDTH),
                1,
            )
        } else {
            Rect::at(
                min16(end_x, right),
                area.y,
                min16(sat_sub(right as int, end_x as int), NEW_TAB_WIDTH),
                1,
            )
        },
    }
}

impl BarView {
    /// Tabs before the first one in view.
    pub open spec fn hides_left(self) -> bool {
        self.placed.len() > 0 && self.placed[0].0 > 0
    }

    /// Tabs after the last one in view.
    pub open spec fn hides_right(self) -> bool {
        self.placed.len() > 0 && self.placed.last().0 + 1 < self.tabs.len()
    }

    /// The hit map after the bar was drawn.
    pub open spec fn hits_after(self, hits: HitsView, mouse: bool) -> HitsView {
        HitsView {
            tabs: hits.tabs + tab_hits(self.tabs, self.placed),
            tab_scroll_left: if self.buttons {
                self.left_button
            } else {
                hits.tab_scroll_left
            },
            tab_scroll_right: if self.buttons {
                self.right_button
            } else {
                hits.tab_scroll_right
            },
            new_tab: if mouse {
                self.new_tab
            } else {
                hits.new_tab
            },
            ..hits
        }
    }

    /// The step that draws the left scroll button.
    pub open spec fn left_steps(self, palette: Palette) -> Seq<DrawOpView> {
        if self.buttons {
            seq![
                DrawOpView::Text {
                    x: self.left_button.x,
                    y: self.content.y,
                    width: self.left_button.width,
                    text: " < "@,
                    style: button_style(self.scroll > 0, palette),
                },
            ]
        } else {
            Seq::empty()
        }
    }

    /// The step that draws the right scroll button.
    pub open spec fn right_steps(self, y: u16, palette: Palette) -> Seq<DrawOpView> {
        if self.buttons {
            seq![
                DrawOpView::Text {
                    x: self.right_button.x,
                    y,
                    width: self.right_button.width,
                    text: " > "@,
                    style: button_style(self.hides_right(), palette),
                },
            ]
        } else {
            Seq::empty()
        }
    }

    /// The step that draws the control that opens a tab.
    pub open spec fn new_tab_steps(self, y: u16, mouse: bool, palette: Palette) -> Seq<DrawOpView> {
        if mouse {
            seq![
                DrawOpView::Text {
                    x: self.new_tab.x,
                    y,
                    width: self.new_tab.width,
                    text: " + "@,
                    style: Style::plain().in_color(palette.overlay1).over(palette.panel_bg),
                },
            ]
        } else {
            Seq::empty()
        }
    }

    /// The steps that draw tabs and controls.
    pub open spec fn body_steps(
        self,
        canvas_area: Rect,
        y: u16,
        mouse: bool,
        palette: Palette,
        style: TabCapStyleConfig,
    ) -> Seq<DrawOpView> {
        self.left_steps(palette) + tabs_steps(
            canvas_area,
            self.tabs,
            self.placed,
            palette,
            style,
            self.placed.len() as int,
        ) + self.right_steps(y, palette) + self.new_tab_steps(y, mouse, palette)
    }

    /// The steps that mark hidden tabs and where a dragged tab would drop.
    pub open spec fn marks_steps(
        self,
        hits: HitsView,
        target: Option<usize>,
        y: u16,
        palette: Palette,
    ) -> Seq<DrawOpView> {
        self.left_mark(hits, y, palette) + self.right_mark(hits, y, palette) + self.drop_steps(
            hits,
            target,
            y,
            palette,
        )
    }

    /// The step that marks hidden tabs at the left.
    pub open spec fn left_mark(self, hits: HitsView, y: u16, palette: Palette) -> Seq<DrawOpView> {
        let x = if hits.tab_scroll_left.width > 0 {
            hits.tab_scroll_left.right_edge()
        } else {
            self.content.x
        };
        if self.hides_left() {
            seq![mark_step(x, y, x < self.content.right_edge(), palette)]
        } else {
            Seq::empty()
        }
    }

    /// The step that marks hidden tabs at the right.
    pub open spec fn right_mark(self, hits: HitsView, y: u16, palette: Palette) -> Seq<DrawOpView> {
        let x = if hits.tab_scroll_right.width > 0 {
            sat_sub(hits.tab_scroll_right.x as int, 1)
        } else {
            sat_sub(self.content.right_edge() as int, 1)
        };
        if self.hides_right() {
            seq![mark_step(x, y, self.content.x <= x < self.content.right_edge(), palette)]
        } else {
            Seq::empty()
        }
    }

    /// The step that draws where a dragged tab would drop.
    pub open spec fn drop_steps(
        self,
        hits: HitsView,
        target: Option<usize>,
        y: u16,
        palette: Palette,
    ) -> Seq<DrawOpView> {
        match target {
            Some(place) => match drop_x(hits, self.tabs, place as int) {
                Some(x) => seq![
                    DrawOpView::Text {
                        x: min16(x, sat_sub(self.content.right_edge() as int, 1)),
                        y,
                        width: 1,
                        text: "\u{2502}"@,
                        style: Style::plain().in_color(palette.accent),
                    },
                ],
                None => Seq::empty(),
            },
            None => Seq::empty(),
        }
    }
}

/// The step that draws an ellipsis; without room it covers no cell.
pub open spec fn mark_step(x: u16, y: u16, fits: bool, palette: Palette) -> DrawOpView {
    DrawOpView::Text {
        x,
        y,
        width: if fits {
            1
        } else {
            0
        },
        text: "\u{2026}"@,
        style: Style::plain().in_color(palette.overlay0),
    }
}

/// The steps that draw the status strip in its zone.
pub open spec fn strip_zone_steps(snapshot: SnapshotView, area: Rect, palette: Palette) -> Seq<
    DrawOpView,
> {
    match strip_area(snapshot, area) {
        Some(zone) => strip_steps(snapshot, zone, palette),
        None => Seq::empty(),
    }
}

/// The steps that draw the whole bar.
pub open spec fn bar_steps(
    canvas_area: Rect,
    snapshot: SnapshotView,
    area: Rect,
    mouse: bool,
    style: TabCapStyleConfig,
    palette: Palette,
    bar: BarView,
    hits: HitsView,
    target: Option<usize>,
) -> Seq<DrawOpView> {
    seq![DrawOpView::Fill { area, style: Style::plain().over(palette.panel_bg) }] + bar.body_steps(
        canvas_area,
        area.y,
        mouse,
        palette,
        style,
    ) + bar.marks_steps(bar.hits_after(hits, mouse), target, area.y, palette) + status_steps(
        snapshot,
        area,
        palette,
    ) + strip_zone_steps(snapshot, area, palette)
}

fn draw_button(canvas: &mut Canvas, rect: Rect, y: u16, text: &str, live: bool, palette: &Palette)
    ensures
        final(canvas).area == old(canvas).area,
        final(canvas)@ == old(canvas)@.push(
            DrawOpView::Text {
                x: rect.x,
                y,
                width: rect.width,
                text: text@,
                style: button_style(live, *palette),
            },
        ),
{
    let fg = if live {
        palette.overlay1
    } else {
        palette.overlay0
    };
    canvas.put_text(rect.x, y, rect.width, text, Style::new().fg(fg).bg(palette.surface0));
}

fn draw_mark(canvas: &mut Canvas, x: u16, y: u16, fits: bool, palette: &Palette)
    ensures
        final(canvas).area == old(canvas).area,
        final(canvas)@ == old(canvas)@.push(mark_step(x, y, fits, *palette)),
{
    let width: u16 = if fits {
        1
    } else {
        0
    };
    canvas.put_text(x, y, width, "\u{2026}", Style::new().fg(palette.overlay0));
}

/// A bar that is laid out.
pub struct TabBar<'a> {
    tabs: Vec<&'a ClientShellTab>,
    content: Rect,
    buttons: bool,
    scroll: usize,
    tab_right: u16,
    placed: Vec<(usize, Rect)>,
    end_x: u16,
    left_button: Rect,
    right_button: Rect,
    new_tab: Rect,
}

impl View for TabBar<'_> {
    type V = BarView;

    closed spec fn view(&self) -> BarView {
        BarView {
            tabs: views(self.tabs@),
            content: self.content,
            buttons: self.buttons,
            scroll: self.scroll as int,
            tab_right: self.tab_right,
            placed: counted(self.placed@),
            end_x: self.end_x,
            left_button: self.left_button,
            right_button: self.right_button,
            new_tab: self.new_tab,
        }
    }
}

/// Lay the bar out.
pub fn layout_tab_bar<'a>(
    snapshot: &'a ClientShellSnapshot,
    area: Rect,
    mouse: bool,
    style: TabCapStyleConfig,
    scroll: usize,
    reveal: bool,
) -> (r: TabBar<'a>)
    ensures
        r@ == bar_of(snapshot@, area, mouse, style, scroll as int, reveal),
        r.wf(),
{
    let tabs = focused_tabs(snapshot);
    let widths = tab_widths(tabs.as_slice());
    let content = tab_bar_content_area(snapshot, area);
    let gap: u16 = tab_gap(style);
    let overflow = measure_overflow(widths.as_slice(), content, mouse, gap);
    let available: u16 = measure_room(content, overflow, mouse);
    let at: usize = scroll_position(
        tabs.as_slice(),
        widths.as_slice(),
        overflow,
        available,
        gap,
        scroll,
        reveal,
    );
    let buttons = overflow && mouse;
    let right: u16 = content.right();
    let left_button = Rect::new(
        content.x,
        content.y,
        smaller(TAB_SCROLL_BUTTON_WIDTH, content.width),
        1,
    );
    let start_x: u16 = if buttons {
        left_button.right()
    } else {
        content.x
    };
    let taken: u16 = if buttons {
        NEW_TAB_WIDTH + TAB_SCROLL_BUTTON_WIDTH
    } else if mouse {
        NEW_TAB_WIDTH
    } else {
        0
    };
    let tab_right: u16 = right.saturating_sub(taken);
    let (placed, end_x) = place_tabs(widths.as_slice(), at, start_x, tab_right, area.y, gap);
    let right_button = Rect::new(tab_right, area.y, TAB_SCROLL_BUTTON_WIDTH, 1);
    let new_tab = if buttons {
        Rect::new(
            right_button.right(),
            area.y,
            smaller(right.saturating_sub(right_button.right()), NEW_TAB_WIDTH),
            1,
        )
    } else {
        Rect::new(
            smaller(end_x, right),
            area.y,
            smaller(right.saturating_sub(end_x), NEW_TAB_WIDTH),
            1,
        )
    };
    TabBar {
        tabs,
        content,
        buttons,
        scroll: at,
        tab_right,
        placed,
        end_x,
        left_button,
        right_button,
        new_tab,
    }
}

impl TabBar<'_> {
    /// Every placed tab is one of the bar's.
    pub closed spec fn wf(&self) -> bool {
        forall|k: int|
            0 <= k < self.placed@.len() ==> (#[trigger] self.placed@[k]).0 < self.tabs@.len()
    }

    /// The scroll position.
    pub fn scroll(&self) -> (r: usize)
        ensures
            r == self@.scroll,
    {
        self.scroll
    }

    fn hides_left(&self) -> (r: bool)
        ensures
            r == self@.hides_left(),
    {
        assert(self.placed@.len() > 0 ==> self@.placed[0].0 == self.placed@[0].0);
        self.placed.len() > 0 && self.placed[0].0 > 0
    }

    fn hides_right(&self) -> (r: bool)
        requires
            self.wf(),
        ensures
            r == self@.hides_right(),
    {
        let count: usize = self.placed.len();
        let total: usize = self.tabs.len();
        assert(count > 0 ==> self@.placed.last().0 == self.placed@[count - 1].0);
        count > 0 && self.placed[count - 1].0 + 1 < total
    }

    /// Record where the mouse can hit the bar, and draw its tabs and controls.
    fn draw(
        &self,
        canvas: &mut Canvas,
        hits: &mut ShellHitMap,
        y: u16,
        mouse: bool,
        palette: &Palette,
        style: TabCapStyleConfig,
    )
        requires
            self.wf(),
            self@.buttons ==> mouse,
        ensures
            final(canvas).area == old(canvas).area,
            final(hits)@ == self@.hits_after(old(hits)@, mouse),
            final(canvas)@ == old(canvas)@ + self@.body_steps(
                old(canvas).area,
                y,
                mouse,
                *palette,
                style,
            ),
    {
        let ghost before = canvas@;
        let ghost bar = self@;
        let ghost canvas_area = canvas.area;
        if self.buttons {
            hits.tab_scroll_left = self.left_button;
            draw_button(
                canvas,
                self.left_button,
                self.content.y,
                " < ",
                self.scroll > 0,
                palette,
            );
        }
        let ghost part1 = bar.left_steps(*palette);
        assert(canvas@ =~= before + part1);
        draw_tabs(canvas, hits, self.tabs.as_slice(), self.placed.as_slice(), palette, style);
        let ghost part2 = part1 + tabs_steps(
            canvas_area,
            bar.tabs,
            bar.placed,
            *palette,
            style,
            bar.placed.len() as int,
        );
        assert(bar.placed.len() == self.placed@.len());
        assert(canvas@ =~= before + part2);
        if self.buttons {
            hits.tab_scroll_right = self.right_button;
            draw_button(canvas, self.right_button, y, " > ", self.hides_right(), palette);
        }
        let ghost part3 = part2 + bar.right_steps(y, *palette);
        assert(canvas@ =~= before + part3);
        if mouse {
            hits.new_tab = self.new_tab;
            canvas.put_text(
                self.new_tab.x,
                y,
                self.new_tab.width,
                " + ",
                Style::new().fg(palette.overlay1).bg(palette.panel_bg),
            );
        }
        assert(canvas@ =~= before + (part3 + bar.new_tab_steps(y, mouse, *palette)));
    }

    /// Mark hidden tabs, and where a dragged tab would drop.
    fn draw_marks(
        &self,
        canvas: &mut Canvas,
        hits: &ShellHitMap,
        y: u16,
        target: Option<usize>,
        palette: &Palette,
    )
        requires
            self.wf(),
        ensures
            final(canvas).area == old(canvas).area,
            final(canvas)@ == old(canvas)@ + self@.marks_steps(hits@, target, y, *palette),
    {
        let ghost before = canvas@;
        let ghost bar = self@;
        let right: u16 = self.content.right();
        if self.hides_left() {
            let x: u16 = if hits.tab_scroll_left.width > 0 {
                hits.tab_scroll_left.right()
            } else {
                self.content.x
            };
            draw_mark(canvas, x, y, x < right, palette);
        }
        let ghost part1 = bar.left_mark(hits@, y, *palette);
        assert(canvas@ =~= before + part1);
        if self.hides_right() {
            let x: u16 = if hits.tab_scroll_right.width > 0 {
                hits.tab_scroll_right.x.saturating_sub(1)
            } else {
                right.saturating_sub(1)
            };
            draw_mark(canvas, x, y, self.content.x <= x && x < right, palette);
        }
        let ghost part2 = part1 + bar.right_mark(hits@, y, *palette);
        assert(canvas@ =~= before + part2);
        if let Some(place) = target {
            if let Some(x) = tab_drop_indicator_x(hits, self.tabs.as_slice(), place) {
                canvas.put_text(
                    smaller(x, right.saturating_sub(1)),
                    y,
                    1,
                    "\u{2502}",
                    Style::new().fg(palette.accent),
                );
            }
        }
        assert(canvas@ =~= before + (part2 + bar.drop_steps(hits@, target, y, *palette)));
    }
}

/// Draw the tab bar, record where the mouse can hit it, and settle its scroll
/// position.
pub fn render_tab_bar(
    canvas: &mut Canvas,
    area: Rect,
    snapshot: &ClientShellSnapshot,
    config: &ClientShellConfig,
    tab_scroll: &mut usize,
    reveal_focused_tab: &mut bool,
    tab_drag_insert_index: Option<usize>,
    hits: &mut ShellHitMap,
)
    ensures
        final(canvas).area == old(canvas).area,
        ({
            let bar = bar_of(
                snapshot@,
                area,
                config.mouse_capture,
                config.tab_style,
                *old(tab_scroll) as int,
                *old(reveal_focused_tab),
            );
            &&& *final(tab_scroll) == bar.scroll
            &&& !*final(reveal_focused_tab)
            &&& final(hits)@ == bar.hits_after(old(hits)@, config.mouse_capture)
            &&& final(canvas)@ == old(canvas)@ + bar_steps(
                old(canvas).area,
                snapshot@,
                area,
                config.mouse_capture,
                config.tab_style,
                config.palette,
                bar,
                old(hits)@,
                tab_drag_insert_index,
            )
        }),
{
    let palette = &config.palette;
    let mouse = config.mouse_capture;
    let style = config.tab_style;
    let layout = layout_tab_bar(snapshot, area, mouse, style, *tab_scroll, *reveal_focused_tab);
    *tab_scroll = layout.scroll();
    *reveal_focused_tab = false;
    paint_tab_bar(canvas, area, snapshot, config, &layout, tab_drag_insert_index, hits);
}

/// Draw a bar that is laid out.
fn paint_tab_bar(
    canvas: &mut Canvas,
    area: Rect,
    snapshot: &ClientShellSnapshot,
    config: &ClientShellConfig,
    layout: &TabBar<'_>,
    target: Option<usize>,
    hits: &mut ShellHitMap,
)
    requires
        layout.wf(),
        layout@.buttons ==> config.mouse_capture,
    ensures
        final(canvas).area == old(canvas).area,
        final(hits)@ == layout@.hits_after(old(hits)@, config.mouse_capture),
        final(canvas)@ == old(canvas)@ + bar_steps(
            old(canvas).area,
            snapshot@,
            area,
            config.mouse_capture,
            config.tab_style,
            config.palette,
            layout@,
            old(hits)@,
            target,
        ),
{
    let palette = &config.palette;
    let ghost before = canvas@;
    let ghost fill = seq![
        DrawOpView::Fill { area, style: Style::plain().over(palette.panel_bg) },
    ];
    let ghost body = layout@.body_steps(
        canvas.area,
        area.y,
        config.mouse_capture,
        *palette,
        config.tab_style,
    );
    let ghost after = layout@.hits_after(hits@, config.mouse_capture);
    let ghost marks = layout@.marks_steps(after, target, area.y, *palette);
    let ghost status = status_steps(snapshot@, area, *palette);
    let ghost strip = strip_zone_steps(snapshot@, area, *palette);
    canvas.set_style(area, Style::new().bg(palette.panel_bg));
    assert(canvas@ =~= before + fill);
    layout.draw(canvas, hits, area.y, config.mouse_capture, palette, config.tab_style);
    layout.draw_marks(canvas, hits, area.y, target, palette);
    render_tab_bar_status(canvas, area, snapshot, palette);
    let ghost drawn = canvas@;
    if let Some(zone) = status_strip_area(snapshot, area) {
        render_status_strip(canvas, zone, snapshot, palette);
    } else {
        assert(drawn + strip =~= drawn);
    }
    proof {
        lemma_append(before, fill, body);
        lemma_append(before, fill + body, marks);
        lemma_append(before, fill + body + marks, status);
        lemma_append(before, fill + body + marks + status, strip);
    }
}

proof fn lemma_append<A>(a: Seq<A>, b: Seq<A>, c: Seq<A>)
    ensures
        (a + b) + c == a + (b + c),
{
    assert((a + b) + c =~= a + (b + c));
}

// --- laws ------------------------------------------------------------------------------

/// Columns of the tabs from `start` up to `end`, each with the gap after it.
pub open spec fn run_columns(widths: Seq<u16>, start: int, end: int, gap: u16) -> int
    decreases end - start,
{
    if start >= end {
        0
    } else {
        widths[start] + gap + run_columns(widths, start + 1, end, gap)
    }
}

proof fn lemma_run_from_the_end(widths: Seq<u16>, start: int, end: int, gap: u16)
    requires
        start < end,
    ensures
        run_columns(widths, start, end, gap) == run_columns(widths, start, end - 1, gap)
            + widths[end - 1] + gap,
    decreases end - start,
{
    if start + 1 < end {
        lemma_run_from_the_end(widths, start + 1, end, gap);
    } else {
        assert(run_columns(widths, start + 1, end, gap) == 0);
    }
}

proof fn lemma_columns_before(widths: Seq<u16>, start: int, end: int, gap: u16)
    ensures
        0 <= run_columns(widths, start, end, gap),
        columns_before(widths, start, end, gap) == (if run_columns(widths, start, end, gap)
            > u16::MAX {
            u16::MAX as int
        } else {
            run_columns(widths, start, end, gap)
        }),
    decreases end - start,
{
    if start < end {
        lemma_run_from_the_end(widths, start, end, gap);
        lemma_columns_before(widths, start, end - 1, gap);
    }
}

proof fn lemma_reached_tab_is_visible(
    widths: Seq<u16>,
    start: int,
    tab: int,
    remaining: u16,
    gap: u16,
)
    requires
        0 <= start <= tab < widths.len(),
        run_columns(widths, start, tab, gap) < remaining,
    ensures
        last_visible_from(start, widths, remaining, gap) matches Some(k) && tab <= k
            < widths.len(),
    decreases tab - start,
{
    lemma_last_visible(start, widths, remaining, gap);
    lemma_columns_before(widths, start, tab, gap);
    if start < tab {
        lemma_columns_before(widths, start + 1, tab, gap);
        lemma_reached_tab_is_visible(
            widths,
            start + 1,
            tab,
            sat_sub(remaining as int, widths[start] + gap),
            gap,
        );
    }
}

proof fn lemma_max_scroll_from(widths: Seq<u16>, available: u16, gap: u16, s: int)
    requires
        0 <= s <= widths.len(),
        forall|t: int| 0 <= t < s ==> !#[trigger] shows_the_end(t, widths, available, gap),
    ensures
        is_max_scroll(widths, available, gap, max_scroll(widths, available, gap)),
    decreases widths.len() - s,
{
    if s == widths.len() {
        assert(is_max_scroll(widths, available, gap, 0));
    } else if shows_the_end(s, widths, available, gap) {
        assert(is_max_scroll(widths, available, gap, s));
    } else {
        lemma_max_scroll_from(widths, available, gap, s + 1);
    }
}

/// The best start before `s`.
proof fn lemma_best_start(focused: int, widths: Seq<u16>, available: u16, gap: u16, s: int) -> (best:
    int)
    requires
        0 <= s <= focused + 1,
        exists|t: int| 0 <= t < s && #[trigger] reaches(t, focused, widths, available, gap),
    ensures
        0 <= best < s,
        reaches(best, focused, widths, available, gap),
        forall|t: int|
            0 <= t < s && #[trigger] reaches(t, focused, widths, available, gap) ==> {
                let here = off_center(best, focused, widths, available, gap);
                let there = off_center(t, focused, widths, available, gap);
                here < there || (here == there && t <= best)
            },
    decreases s,
{
    let last = s - 1;
    if exists|t: int| 0 <= t < last && #[trigger] reaches(t, focused, widths, available, gap) {
        let before = lemma_best_start(focused, widths, available, gap, last);
        if reaches(last, focused, widths, available, gap) && off_center(
            last,
            focused,
            widths,
            available,
            gap,
        ) <= off_center(before, focused, widths, available, gap) {
            last
        } else {
            before
        }
    } else {
        last
    }
}

proof fn lemma_centered_scroll(focused: int, widths: Seq<u16>, available: u16, gap: u16)
    requires
        0 <= focused,
    ensures
        is_centered_scroll(
            focused,
            widths,
            available,
            gap,
            centered_scroll(focused, widths, available, gap),
        ),
{
    if available == 0 {
        assert(is_centered_scroll(focused, widths, available, gap, focused));
    } else {
        assert(reaches(focused, focused, widths, available, gap));
        let best = lemma_best_start(focused, widths, available, gap, focused + 1);
        assert(is_centered_scroll(focused, widths, available, gap, best));
    }
}

proof fn lemma_placed(widths: Seq<u16>, i: int, x: u16, right: u16, y: u16, gap: u16)
    requires
        0 <= i,
        forall|k: int| 0 <= k < widths.len() ==> (#[trigger] widths[k]) > 0,
    ensures
        ({
            let placed = placed_from(widths, i, x, right, y, gap);
            &&& forall|k: int|
                0 <= k < placed.len() ==> {
                    &&& (#[trigger] placed[k]).0 == i + k
                    &&& placed[k].0 < widths.len()
                    &&& x <= placed[k].1.x
                    &&& placed[k].1.x + placed[k].1.width <= right
                    &&& placed[k].1.width > 0
                }
            &&& forall|k: int, l: int|
                0 <= k < l < placed.len() ==> (#[trigger] placed[k]).1.x + placed[k].1.width + gap
                    <= (#[trigger] placed[l]).1.x
            &&& placed.len() > 0 <==> last_visible_from(
                i,
                widths,
                sat_sub(right as int, x as int),
                gap,
            ) is Some
            &&& placed.len() > 0 ==> last_visible_from(
                i,
                widths,
                sat_sub(right as int, x as int),
                gap,
            ) == Some(placed.last().0)
        }),
    decreases widths.len() - i,
{
    let placed = placed_from(widths, i, x, right, y, gap);
    if i < widths.len() && sat_sub(right as int, x as int) > 0 {
        assert(widths[i] > 0);
        let width = min16(widths[i], sat_sub(right as int, x as int));
        let here = (i, Rect::at(x, y, width, 1));
        if width < widths[i] {
        } else {
            let next = sat_add(x as int, width + gap);
            lemma_placed(widths, i + 1, next, right, y, gap);
            let rest = placed_from(widths, i + 1, next, right, y, gap);
            assert(placed =~= seq![here] + rest);
            assert forall|k: int| 0 <= k < placed.len() implies {
                &&& (#[trigger] placed[k]).0 == i + k
                &&& placed[k].0 < widths.len()
                &&& x <= placed[k].1.x
                &&& placed[k].1.x + placed[k].1.width <= right
                &&& placed[k].1.width > 0
            } by {
                if k > 0 {
                    assert(placed[k] == rest[k - 1]);
                }
            }
            assert forall|k: int, l: int| 0 <= k < l < placed.len() implies (
            #[trigger] placed[k]).1.x + placed[k].1.width + gap <= (#[trigger] placed[l]).1.x by {
                assert(placed[l] == rest[l - 1]);
                if k > 0 {
                    assert(placed[k] == rest[k - 1]);
                }
            }
            if rest.len() > 0 {
                assert(placed.last() == rest.last());
            } else {
                assert(placed.last() == here);
            }
        }
    }
}

/// The tabs in view are neighbors, starting at the scroll position; they stand
/// side by side with the gap between them, and none reaches into the controls
/// at the right.
pub proof fn law_tabs_stand_side_by_side(
    snapshot: SnapshotView,
    area: Rect,
    mouse: bool,
    style: TabCapStyleConfig,
    scroll: int,
    reveal: bool,
)
    requires
        0 <= scroll,
    ensures
        ({
            let bar = bar_of(snapshot, area, mouse, style, scroll, reveal);
            &&& forall|k: int|
                0 <= k < bar.placed.len() ==> {
                    &&& (#[trigger] bar.placed[k]).0 == bar.scroll + k
                    &&& bar.placed[k].0 < bar.tabs.len()
                    &&& bar.content.x <= bar.placed[k].1.x
                    &&& bar.placed[k].1.x + bar.placed[k].1.width <= bar.tab_right
                    &&& bar.placed[k].1.width > 0
                }
            &&& forall|k: int, l: int|
                0 <= k < l < bar.placed.len() ==> (#[trigger] bar.placed[k]).1.x
                    + bar.placed[k].1.width + gap_of(style) <= (#[trigger] bar.placed[l]).1.x
        }),
{
    let bar = bar_of(snapshot, area, mouse, style, scroll, reveal);
    let start_x = if bar.buttons {
        bar.left_button.right_edge()
    } else {
        bar.content.x
    };
    let widths = wanted(bar.tabs);
    let overflow = overflows(widths, bar.content, mouse, gap_of(style));
    let room = tab_room(bar.content, overflow, mouse);
    lemma_max_scroll_from(widths, room, gap_of(style), 0);
    lemma_focused_place(bar.tabs, 0);
    match focused_place(bar.tabs, 0) {
        Some(focused) => {
            lemma_centered_scroll(focused, widths, room, gap_of(style));
        },
        None => {},
    }
    lemma_placed(widths, bar.scroll, start_x, bar.tab_right, area.y, gap_of(style));
}

/// A focused tab that is to be revealed is in view.
pub proof fn law_revealed_tab_is_in_view(
    snapshot: SnapshotView,
    area: Rect,
    mouse: bool,
    style: TabCapStyleConfig,
    scroll: int,
    focused: int,
)
    requires
        area.x + area.width <= u16::MAX,
        content_area(snapshot, area).width > 0,
        overflows(
            wanted(bar_tabs(snapshot)),
            content_area(snapshot, area),
            mouse,
            gap_of(style),
        ),
        focused_place(bar_tabs(snapshot), 0) == Some(focused),
    ensures
        ({
            let bar = bar_of(snapshot, area, mouse, style, scroll, true);
            exists|k: int| 0 <= k < bar.placed.len() && (#[trigger] bar.placed[k]).0 == focused
        }),
{
    let bar = bar_of(snapshot, area, mouse, style, scroll, true);
    let widths = wanted(bar.tabs);
    let gap = gap_of(style);
    let room = tab_room(bar.content, true, mouse);
    let start_x = if bar.buttons {
        bar.left_button.right_edge()
    } else {
        bar.content.x
    };
    lemma_focused_place(bar.tabs, 0);
    lemma_max_scroll_from(widths, room, gap, 0);
    lemma_centered_scroll(focused, widths, room, gap);
    let furthest = max_scroll(widths, room, gap);
    let middle = centered_scroll(focused, widths, room, gap);
    assert(room > 0);
    assert(sat_sub(bar.tab_right as int, start_x as int) == room);
    assert(0 <= middle <= focused);
    if furthest < middle {
        let end = widths.len() - 1;
        assert(last_visible_from(
            end + 1,
            widths,
            sat_sub(room as int, widths[end] + gap),
            gap,
        ) is None);
        assert(shows_the_end(end, widths, room, gap));
        assert(shows_the_end(furthest, widths, room, gap));
        assert(bar.scroll == furthest);
    } else {
        lemma_columns_before(widths, middle, focused, gap);
        lemma_reached_tab_is_visible(widths, middle, focused, room, gap);
        assert(bar.scroll == middle);
    }
    lemma_placed(widths, bar.scroll, start_x, bar.tab_right, area.y, gap);
    assert(bar.placed.len() > 0);
    let k = focused - bar.scroll;
    let last = bar.placed.len() - 1;
    assert(bar.placed[last].0 == bar.scroll + last);
    assert(bar.placed.last() == bar.placed[last]);
    assert(0 <= k <= last);
    assert(bar.placed[k].0 == focused);
}

proof fn lemma_focused_place(tabs: Seq<TabView>, i: int)
    requires
        0 <= i,
    ensures
        focused_place(tabs, i) matches Some(k) ==> i <= k < tabs.len() && tabs[k].focused,
    decreases tabs.len() - i,
{
    if i < tabs.len() && !tabs[i].focused {
        lemma_focused_place(tabs, i + 1);
    }
}

proof fn lemma_all_placed(widths: Seq<u16>, i: int, x: u16, right: u16, y: u16, gap: u16)
    requires
        0 <= i <= widths.len(),
        forall|k: int| 0 <= k < widths.len() ==> (#[trigger] widths[k]) > 0,
        i < widths.len() ==> x <= right && run_columns(widths, i, widths.len() as int, gap)
            <= right - x + gap,
    ensures
        placed_from(widths, i, x, right, y, gap).len() == widths.len() - i,
        forall|k: int|
            0 <= k < widths.len() - i ==> (#[trigger] placed_from(
                widths,
                i,
                x,
                right,
                y,
                gap,
            )[k]).1.width == widths[i + k],
    decreases widths.len() - i,
{
    if i < widths.len() {
        let end = widths.len() as int;
        lemma_columns_before(widths, i + 1, end, gap);
        assert(widths[i] > 0);
        let next = sat_add(x as int, widths[i] + gap);
        if i + 1 < end {
            lemma_columns_before(widths, i + 2, end, gap);
            assert(run_columns(widths, i + 1, end, gap) >= widths[i + 1] + gap);
            assert(widths[i + 1] > 0);
        }
        lemma_all_placed(widths, i + 1, next, right, y, gap);
        let rest = placed_from(widths, i + 1, next, right, y, gap);
        let placed = placed_from(widths, i, x, right, y, gap);
        assert(placed =~= seq![(i, Rect::at(x, y, widths[i], 1))] + rest);
        assert forall|k: int| 0 <= k < widths.len() - i implies (#[trigger] placed[k]).1.width
            == widths[i + k] by {
            if k > 0 {
                assert(placed[k] == rest[k - 1]);
                assert(rest[k - 1].1.width == widths[i + 1 + (k - 1)]);
            }
        }
    }
}

/// Where all tabs fit, all are in view, each as wide as it wants.
pub proof fn law_fitting_tabs_are_all_in_view(
    snapshot: SnapshotView,
    area: Rect,
    mouse: bool,
    style: TabCapStyleConfig,
    scroll: int,
    reveal: bool,
)
    requires
        area.x + area.width <= u16::MAX,
        !overflows(
            wanted(bar_tabs(snapshot)),
            content_area(snapshot, area),
            mouse,
            gap_of(style),
        ),
        run_columns(
            wanted(bar_tabs(snapshot)),
            0,
            bar_tabs(snapshot).len() as int,
            gap_of(style),
        ) + new_tab_columns(mouse) <= content_area(snapshot, area).width + gap_of(style),
    ensures
        ({
            let bar = bar_of(snapshot, area, mouse, style, scroll, reveal);
            &&& bar.scroll == 0
            &&& bar.placed.len() == bar.tabs.len()
            &&& forall|k: int|
                0 <= k < bar.placed.len() ==> (#[trigger] bar.placed[k]).1.width == tab_columns(
                    label_of(bar.tabs[k]),
                )
            &&& !bar.hides_left()
            &&& !bar.hides_right()
        }),
{
    let bar = bar_of(snapshot, area, mouse, style, scroll, reveal);
    let widths = wanted(bar.tabs);
    let gap = gap_of(style);
    let end = widths.len() as int;
    if end > 0 {
        lemma_columns_before(widths, 1, end, gap);
        assert(widths[0] > 0);
    }
    lemma_all_placed(widths, 0, bar.content.x, bar.tab_right, area.y, gap);
    lemma_placed(widths, 0, bar.content.x, bar.tab_right, area.y, gap);
    assert(bar.placed == placed_from(widths, 0, bar.content.x, bar.tab_right, area.y, gap));
    assert forall|k: int| 0 <= k < bar.placed.len() implies (#[trigger] bar.placed[k]).1.width
        == tab_columns(label_of(bar.tabs[k])) by {
        assert(bar.placed[k].1.width == widths[0 + k]);
    }
    if end > 0 {
        assert(bar.placed[0].0 == 0);
        assert(bar.placed[end - 1].0 == end - 1);
        assert(bar.placed.last() == bar.placed[end - 1]);
    }
}

/// Caps stand in the padding of a tab: styles that leave the same gap lay the
/// bar out alike and leave the same places to hit.
pub proof fn law_caps_leave_the_layout(
    snapshot: SnapshotView,
    area: Rect,
    mouse: bool,
    a: TabCapStyleConfig,
    b: TabCapStyleConfig,
    scroll: int,
    reveal: bool,
    hits: HitsView,
)
    requires
        gap_of(a) == gap_of(b),
    ensures
        bar_of(snapshot, area, mouse, a, scroll, reveal) == bar_of(
            snapshot,
            area,
            mouse,
            b,
            scroll,
            reveal,
        ),
        bar_of(snapshot, area, mouse, a, scroll, reveal).hits_after(hits, mouse) == bar_of(
            snapshot,
            area,
            mouse,
            b,
            scroll,
            reveal,
        ).hits_after(hits, mouse),
{
}

/// `at` lists the places of the tabs of the focused workspace, in order and
/// without leaving one out.
pub open spec fn are_focused_places(snapshot: SnapshotView, at: Seq<int>) -> bool {
    &&& forall|k: int|
        0 <= k < at.len() ==> 0 <= #[trigger] at[k] < snapshot.tabs.len()
            && snapshot.focused_workspace_id == Some(snapshot.tabs[at[k]].workspace_id)
    &&& forall|k: int, l: int| 0 <= k < l < at.len() ==> #[trigger] at[k] < #[trigger] at[l]
    &&& forall|j: int|
        0 <= j < snapshot.tabs.len() && snapshot.focused_workspace_id == Some(
            (#[trigger] snapshot.tabs[j]).workspace_id,
        ) ==> at.contains(j)
}

proof fn lemma_focused_places(snapshot: SnapshotView, n: int) -> (at: Seq<int>)
    requires
        0 <= n <= snapshot.tabs.len(),
    ensures
        are_focused_places(SnapshotView { tabs: snapshot.tabs.take(n), ..snapshot }, at),
        bar_tabs(SnapshotView { tabs: snapshot.tabs.take(n), ..snapshot }) == Seq::new(
            at.len(),
            |k: int| snapshot.tabs[at[k]],
        ),
    decreases n,
{
    reveal(Seq::filter);
    let here = SnapshotView { tabs: snapshot.tabs.take(n), ..snapshot };
    if n == 0 {
        let at = Seq::<int>::empty();
        assert(bar_tabs(here) =~= Seq::new(at.len(), |k: int| snapshot.tabs[at[k]]));
        at
    } else {
        let less = SnapshotView { tabs: snapshot.tabs.take(n - 1), ..snapshot };
        let front = lemma_focused_places(snapshot, n - 1);
        assert(here.tabs.drop_last() =~= less.tabs);
        let last = snapshot.tabs[n - 1];
        assert(here.tabs.last() == last);
        let at = if snapshot.focused_workspace_id == Some(last.workspace_id) {
            front.push(n - 1)
        } else {
            front
        };
        assert forall|j: int|
            0 <= j < here.tabs.len() && here.focused_workspace_id == Some(
                (#[trigger] here.tabs[j]).workspace_id,
            ) implies at.contains(j) by {
            if j < n - 1 {
                assert(less.tabs[j] == here.tabs[j]);
                assert(front.contains(j));
                let k = choose|k: int| 0 <= k < front.len() && front[k] == j;
                assert(at[k] == j);
            } else {
                assert(at[front.len() as int] == j);
            }
        }
        assert forall|k: int| 0 <= k < at.len() implies 0 <= #[trigger] at[k] < here.tabs.len()
            && here.focused_workspace_id == Some(here.tabs[at[k]].workspace_id) by {
            if k < front.len() {
                assert(at[k] == front[k]);
                assert(less.tabs[front[k]] == here.tabs[front[k]]);
            }
        }
        assert forall|k: int, l: int| 0 <= k < l < at.len() implies #[trigger] at[k]
            < #[trigger] at[l] by {
            assert(at[k] == front[k]);
            if l < front.len() {
                assert(at[l] == front[l]);
            }
        }
        assert(bar_tabs(here) =~= Seq::new(at.len(), |k: int| snapshot.tabs[at[k]]));
        at
    }
}

/// The bar has the tabs of the focused workspace, all of them, no others, and in
/// the order of the snapshot. Without a focused workspace it has none.
pub proof fn law_bar_has_the_focused_workspace(snapshot: SnapshotView)
    ensures
        exists|at: Seq<int>| #[trigger]
            are_focused_places(snapshot, at) && bar_tabs(snapshot) == Seq::new(
                at.len(),
                |k: int| snapshot.tabs[at[k]],
            ),
        forall|i: int|
            0 <= i < bar_tabs(snapshot).len() ==> snapshot.tabs.contains(
                #[trigger] bar_tabs(snapshot)[i],
            ) && snapshot.focused_workspace_id == Some(bar_tabs(snapshot)[i].workspace_id),
        forall|j: int|
            0 <= j < snapshot.tabs.len() && snapshot.focused_workspace_id == Some(
                (#[trigger] snapshot.tabs[j]).workspace_id,
            ) ==> bar_tabs(snapshot).contains(snapshot.tabs[j]),
        snapshot.focused_workspace_id is None ==> bar_tabs(snapshot).len() == 0,
{
    let tabs = bar_tabs(snapshot);
    let n = snapshot.tabs.len() as int;
    let at = lemma_focused_places(snapshot, n);
    assert(snapshot.tabs.take(n) =~= snapshot.tabs);
    assert(are_focused_places(snapshot, at));
    assert forall|i: int| 0 <= i < tabs.len() implies snapshot.tabs.contains(#[trigger] tabs[i])
        && snapshot.focused_workspace_id == Some(tabs[i].workspace_id) by {
        assert(tabs[i] == snapshot.tabs[at[i]]);
    }
    assert forall|j: int|
        0 <= j < snapshot.tabs.len() && snapshot.focused_workspace_id == Some(
            (#[trigger] snapshot.tabs[j]).workspace_id,
        ) implies tabs.contains(snapshot.tabs[j]) by {
        let k = choose|k: int| 0 <= k < at.len() && at[k] == j;
        assert(tabs[k] == snapshot.tabs[j]);
    }
    if snapshot.focused_workspace_id is None && tabs.len() > 0 {
        assert(snapshot.focused_workspace_id == Some(tabs[0].workspace_id));
    }
}

/// What the bar can hit is what it shows: each tab that it adds to the hit map
/// is a tab of the focused workspace, by its own id, in the order of the bar from
/// the scroll position on, and stands where it is drawn.
pub proof fn law_hits_are_tabs_of_the_focused_workspace(
    snapshot: SnapshotView,
    area: Rect,
    mouse: bool,
    style: TabCapStyleConfig,
    scroll: int,
    reveal: bool,
    hits: HitsView,
)
    requires
        0 <= scroll,
    ensures
        ({
            let bar = bar_of(snapshot, area, mouse, style, scroll, reveal);
            let after = bar.hits_after(hits, mouse).tabs;
            let old = hits.tabs.len();
            &&& after.len() == old + bar.placed.len()
            &&& after.take(old as int) == hits.tabs
            &&& forall|k: int|
                old <= k < after.len() ==> {
                    let tab = bar.tabs[bar.scroll + k - old];
                    &&& (#[trigger] after[k]).1 == tab.tab_id
                    &&& after[k].0 == bar.placed[k - old].1
                    &&& snapshot.tabs.contains(tab)
                    &&& snapshot.focused_workspace_id == Some(tab.workspace_id)
                }
        }),
{
    let bar = bar_of(snapshot, area, mouse, style, scroll, reveal);
    let after = bar.hits_after(hits, mouse).tabs;
    let old = hits.tabs.len();
    law_bar_has_the_focused_workspace(snapshot);
    law_tabs_stand_side_by_side(snapshot, area, mouse, style, scroll, reveal);
    assert(after.take(old as int) =~= hits.tabs);
    assert forall|k: int| old <= k < after.len() implies {
        let tab = bar.tabs[bar.scroll + k - old];
        &&& (#[trigger] after[k]).1 == tab.tab_id
        &&& after[k].0 == bar.placed[k - old].1
        &&& snapshot.tabs.contains(tab)
        &&& snapshot.focused_workspace_id == Some(tab.workspace_id)
    } by {
        let m = k - old;
        assert(bar.placed[m].0 == bar.scroll + m);
        assert(after[k] == tab_hits(bar.tabs, bar.placed)[m]);
        assert(bar.tabs[bar.placed[m].0] == bar_tabs(snapshot)[bar.placed[m].0]);
        lemma_scroll_is_a_place(snapshot, area, mouse, style, scroll, reveal);
    }
}

proof fn lemma_scroll_is_a_place(
    snapshot: SnapshotView,
    area: Rect,
    mouse: bool,
    style: TabCapStyleConfig,
    scroll: int,
    reveal: bool,
)
    requires
        0 <= scroll,
    ensures
        0 <= bar_of(snapshot, area, mouse, style, scroll, reveal).scroll,
{
    let bar = bar_of(snapshot, area, mouse, style, scroll, reveal);
    let widths = wanted(bar.tabs);
    let overflow = overflows(widths, bar.content, mouse, gap_of(style));
    let room = tab_room(bar.content, overflow, mouse);
    lemma_max_scroll_from(widths, room, gap_of(style), 0);
    lemma_focused_place(bar.tabs, 0);
    match focused_place(bar.tabs, 0) {
        Some(focused) => {
            lemma_centered_scroll(focused, widths, room, gap_of(style));
        },
        None => {},
    }
}

/// A tab shows its own label, with a mark behind it while the tab is zoomed.
pub proof fn law_tab_shows_its_label(tab: TabView)
    ensures
        !tab.zoomed ==> label_of(tab) == tab.label,
        tab.zoomed ==> label_of(tab) == tab.label + seq![' ', 'Z'],
{
    reveal_strlit(" Z");
    assert(" Z"@ =~= seq![' ', 'Z']);
}

/// A tab is just as wide as its label needs: two columns at either side at least,
/// eight in all, and the label in the exact middle.
pub proof fn law_tab_is_no_wider_than_needed(label: Seq<char>, n: int)
    requires
        columns(label) <= u16::MAX - 5,
        n >= 8,
        n >= columns(label) + 4,
        (n - columns(label)) % 2 == 0,
    ensures
        tab_columns(label) <= n,
        8 <= tab_columns(label),
        columns(label) + 4 <= tab_columns(label),
        (tab_columns(label) - columns(label)) % 2 == 0,
{
}

/// The glyphs at the ends of a tab in each style, and the gap between tabs: one
/// column where no glyphs set them apart.
pub proof fn law_caps_of_each_style()
    ensures
        cap_glyphs(TabCapStyleConfig::Block) is None,
        cap_glyphs(TabCapStyleConfig::Round) == Some((seq!['\u{25d6}'], seq!['\u{25d7}'])),
        cap_glyphs(TabCapStyleConfig::Slant) == Some((seq!['\u{2571}'], seq!['\u{2572}'])),
        cap_glyphs(TabCapStyleConfig::Powerline) == Some((seq!['\u{e0b6}'], seq!['\u{e0b4}'])),
        gap_of(TabCapStyleConfig::Block) == 1,
        gap_of(TabCapStyleConfig::Round) == 0,
        gap_of(TabCapStyleConfig::Slant) == 0,
        gap_of(TabCapStyleConfig::Powerline) == 0,
{
    reveal_strlit("\u{25d6}");
    reveal_strlit("\u{25d7}");
    reveal_strlit("\u{2571}");
    reveal_strlit("\u{2572}");
    reveal_strlit("\u{e0b6}");
    reveal_strlit("\u{e0b4}");
    assert("\u{25d6}"@ =~= seq!['\u{25d6}']);
    assert("\u{25d7}"@ =~= seq!['\u{25d7}']);
    assert("\u{2571}"@ =~= seq!['\u{2571}']);
    assert("\u{2572}"@ =~= seq!['\u{2572}']);
    assert("\u{e0b6}"@ =~= seq!['\u{e0b6}']);
    assert("\u{e0b4}"@ =~= seq!['\u{e0b4}']);
}

/// Caps stand in the first and the last cell of a tab, in the tab's color on that
/// of the bar; a tab too narrow for a label between them has none.
pub proof fn law_caps_stand_at_both_ends(
    area: Rect,
    rect: Rect,
    tab_bg: Color,
    bar_bg: Color,
    style: TabCapStyleConfig,
)
    requires
        rect.x + rect.width <= u16::MAX,
        area.x <= rect.x,
        rect.x + rect.width <= area.x + area.width,
        area.y <= rect.y,
        rect.y < area.y + area.height,
        rect.y < u16::MAX,
    ensures
        cap_glyphs(style) is None || rect.width < 3 ==> cap_steps(
            area,
            rect,
            tab_bg,
            bar_bg,
            style,
        ).len() == 0,
        cap_glyphs(style) is Some && rect.width >= 3 ==> ({
            let caps = cap_glyphs(style)->0;
            let steps = cap_steps(area, rect, tab_bg, bar_bg, style);
            &&& steps.len() == 2
            &&& steps[0] matches DrawOpView::Symbol { x, y, symbol, style: look } && x == rect.x
                && y == rect.y && symbol == caps.0 && look.fg == Some(tab_bg) && look.bg == Some(
                bar_bg,
            )
            &&& steps[1] matches DrawOpView::Symbol { x, y, symbol, style: look } && x == rect.x
                + rect.width - 1 && y == rect.y && symbol == caps.1 && look.fg == Some(tab_bg)
                && look.bg == Some(bar_bg)
        }),
{
}

/// A tab is drawn over its whole rectangle with its label in the middle: the
/// focused one in the accent color, others muted; bold marks a focused tab whose
/// label is the user's, dim one that is neither.
pub proof fn law_drawn_tab(
    area: Rect,
    tab: TabView,
    rect: Rect,
    palette: Palette,
    style: TabCapStyleConfig,
)
    ensures
        tab_steps(area, tab, rect, palette, style).len() > 0,
        tab_steps(area, tab, rect, palette, style)[0] matches DrawOpView::Text {
            x,
            y,
            width,
            text,
            style: look,
        } && {
            let label = label_of(tab);
            let padding = if columns(label) <= rect.width {
                rect.width - columns(label)
            } else {
                0
            };
            let left = padding / 2;
            &&& x == rect.x
            &&& y == rect.y
            &&& width == rect.width
            &&& text.len() == padding + label.len()
            &&& text.subrange(left, left + label.len()) == label
            &&& forall|i: int|
                0 <= i < text.len() && (i < left || i >= left + label.len()) ==> #[trigger] text[i]
                    == ' '
            &&& look.fg == Some(
                if tab.focused {
                    palette.panel_contrast_fg
                } else if tab.custom_label {
                    palette.overlay1
                } else {
                    palette.overlay0
                },
            )
            &&& look.bg == Some(
                if tab.focused {
                    palette.accent
                } else {
                    palette.surface0
                },
            )
            &&& look.add_modifier.bits == (if tab.focused && tab.custom_label {
                0x1u16
            } else if !tab.focused && !tab.custom_label {
                0x2u16
            } else {
                0u16
            })
        },
{
    assert(0u16 | 0x1u16 == 0x1u16) by (bit_vector);
    assert(0u16 | 0x2u16 == 0x2u16) by (bit_vector);
    let label = label_of(tab);
    let text = centered_label(label, rect.width);
    let padding = sat_sub(rect.width as int, columns(label) as int);
    let left = padding / 2;
    assert(text.subrange(left as int, left + label.len()) =~= label);
}

proof fn lemma_row_is_filled(widths: Seq<u16>, i: int, x: u16, right: u16, y: u16, gap: u16)
    requires
        0 <= i,
        forall|k: int| 0 <= k < widths.len() ==> (#[trigger] widths[k]) > 0,
    ensures
        ({
            let placed = placed_from(widths, i, x, right, y, gap);
            let last = placed.last();
            &&& placed.len() == 0 <==> i >= widths.len() || x >= right
            &&& placed.len() > 0 ==> placed[0].1.x == x
            &&& forall|k: int|
                0 <= k < placed.len() ==> {
                    &&& (#[trigger] placed[k]).1.y == y
                    &&& placed[k].1.width <= widths[i + k]
                    &&& k + 1 < placed.len() ==> placed[k].1.width == widths[i + k]
                }
            &&& forall|k: int, l: int|
                0 <= k < placed.len() && l == k + 1 && l < placed.len() ==> (
                #[trigger] placed[l]).1.x == (#[trigger] placed[k]).1.x + placed[k].1.width + gap
            &&& placed.len() > 0 ==> last.1.width == widths[last.0] || last.1.x + last.1.width
                == right
            &&& placed.len() > 0 && last.0 + 1 < widths.len() ==> last.1.x + last.1.width + gap
                >= right
            &&& placed.len() > 0 && last.1.x + last.1.width + gap <= u16::MAX ==> placed_end(
                widths,
                i,
                x,
                right,
                gap,
            ) == last.1.x + last.1.width + gap
            &&& placed.len() == 0 ==> placed_end(widths, i, x, right, gap) == x
        }),
    decreases widths.len() - i,
{
    let placed = placed_from(widths, i, x, right, y, gap);
    if i < widths.len() && sat_sub(right as int, x as int) > 0 {
        assert(widths[i] > 0);
        let width = min16(widths[i], sat_sub(right as int, x as int));
        let here = (i, Rect::at(x, y, width, 1));
        if width == widths[i] {
            let next = sat_add(x as int, width + gap);
            lemma_row_is_filled(widths, i + 1, next, right, y, gap);
            lemma_placed(widths, i + 1, next, right, y, gap);
            let rest = placed_from(widths, i + 1, next, right, y, gap);
            assert(placed =~= seq![here] + rest);
            assert forall|k: int| 0 <= k < placed.len() implies {
                &&& (#[trigger] placed[k]).1.y == y
                &&& placed[k].1.width <= widths[i + k]
                &&& k + 1 < placed.len() ==> placed[k].1.width == widths[i + k]
            } by {
                if k > 0 {
                    assert(placed[k] == rest[k - 1]);
                    assert(rest[k - 1].1.width <= widths[i + 1 + (k - 1)]);
                }
            }
            assert forall|k: int, l: int|
                0 <= k < placed.len() && l == k + 1 && l < placed.len() implies (
            #[trigger] placed[l]).1.x == (#[trigger] placed[k]).1.x + placed[k].1.width + gap by {
                assert(placed[l] == rest[l - 1]);
                if k > 0 {
                    assert(placed[k] == rest[k - 1]);
                }
            }
            if rest.len() > 0 {
                assert(placed.last() == rest.last());
            } else {
                assert(placed.last() == here);
            }
        }
    }
}

/// The row of tabs is full: it starts at the left edge, or behind the scroll
/// button there; each tab follows the one before it after exactly the gap; each
/// is as wide as it wants, but for a last one that is cut at the right end; and
/// a tab is left out only where no column is left for it.
pub proof fn law_tabs_fill_the_row(
    snapshot: SnapshotView,
    area: Rect,
    mouse: bool,
    style: TabCapStyleConfig,
    scroll: int,
    reveal: bool,
)
    requires
        0 <= scroll,
    ensures
        ({
            let bar = bar_of(snapshot, area, mouse, style, scroll, reveal);
            let placed = bar.placed;
            let last = placed.last();
            let gap = gap_of(style);
            &&& placed.len() > 0 && !bar.buttons ==> placed[0].1.x == bar.content.x
            &&& placed.len() > 0 && bar.buttons ==> placed[0].1.x == bar.left_button.right_edge()
            &&& placed.len() > 0 ==> placed[0].0 == bar.scroll
            &&& forall|k: int|
                0 <= k < placed.len() ==> {
                    let wants = tab_columns(label_of(bar.tabs[bar.scroll + k]));
                    &&& (#[trigger] placed[k]).1.y == area.y
                    &&& placed[k].1.width <= wants
                    &&& k + 1 < placed.len() ==> placed[k].1.width == wants
                    &&& k + 1 == placed.len() ==> placed[k].1.width == wants || placed[k].1.x
                        + placed[k].1.width == bar.tab_right
                }
            &&& forall|k: int, l: int|
                0 <= k < placed.len() && l == k + 1 && l < placed.len() ==> (
                #[trigger] placed[l]).1.x == (#[trigger] placed[k]).1.x + placed[k].1.width + gap
            &&& placed.len() > 0 && bar.hides_right() ==> last.1.x + last.1.width + gap
                >= bar.tab_right
        }),
{
    let bar = bar_of(snapshot, area, mouse, style, scroll, reveal);
    let start_x = if bar.buttons {
        bar.left_button.right_edge()
    } else {
        bar.content.x
    };
    let widths = wanted(bar.tabs);
    let gap = gap_of(style);
    lemma_scroll_is_a_place(snapshot, area, mouse, style, scroll, reveal);
    lemma_row_is_filled(widths, bar.scroll, start_x, bar.tab_right, area.y, gap);
    lemma_placed(widths, bar.scroll, start_x, bar.tab_right, area.y, gap);
    let placed = bar.placed;
    assert forall|k: int| 0 <= k < placed.len() implies {
        let wants = tab_columns(label_of(bar.tabs[bar.scroll + k]));
        &&& (#[trigger] placed[k]).1.y == area.y
        &&& placed[k].1.width <= wants
        &&& k + 1 < placed.len() ==> placed[k].1.width == wants
        &&& k + 1 == placed.len() ==> placed[k].1.width == wants || placed[k].1.x
            + placed[k].1.width == bar.tab_right
    } by {
        assert(placed[k].0 == bar.scroll + k);
        assert(widths[bar.scroll + k] == tab_columns(label_of(bar.tabs[bar.scroll + k])));
        assert(placed[k].1.width <= widths[bar.scroll + k]);
        if k + 1 == placed.len() {
            assert(placed.last() == placed[k]);
        }
    }
}

/// The controls stand at the ends of the bar and can be hit where they are drawn:
/// the scroll buttons around the tabs where not all of them fit, the control
/// that opens a tab behind everything else. Without a mouse there are none.
pub proof fn law_controls_stand_at_the_ends(
    snapshot: SnapshotView,
    area: Rect,
    mouse: bool,
    style: TabCapStyleConfig,
    scroll: int,
    reveal: bool,
    hits: HitsView,
)
    requires
        0 <= scroll,
        area.x + area.width < u16::MAX,
    ensures
        ({
            let bar = bar_of(snapshot, area, mouse, style, scroll, reveal);
            let after = bar.hits_after(hits, mouse);
            let left = bar.content.x;
            let right = bar.content.x + bar.content.width;
            &&& bar.buttons <==> mouse && overflows(
                wanted(bar.tabs),
                bar.content,
                mouse,
                gap_of(style),
            )
            &&& bar.buttons ==> {
                &&& after.tab_scroll_left.x == left && after.tab_scroll_left.width == 3
                &&& after.tab_scroll_right.x == right - 6 && after.tab_scroll_right.width == 3
                &&& after.new_tab.x == right - 3 && after.new_tab.width == 3
                &&& bar.tab_right == right - 6
            }
            &&& !bar.buttons ==> after.tab_scroll_left == hits.tab_scroll_left
                && after.tab_scroll_right == hits.tab_scroll_right
            &&& mouse && !bar.buttons && bar.placed.len() > 0 ==> {
                let last = bar.placed.last().1;
                let end = last.x + last.width + gap_of(style);
                after.new_tab.x == (if end < right {
                    end
                } else {
                    right
                })
            }
            &&& mouse && !bar.buttons && bar.placed.len() == 0 ==> after.new_tab.x == left
            &&& mouse && !bar.buttons && bar.content.width >= 3 ==> bar.tab_right == right - 3
            &&& !mouse ==> after.new_tab == hits.new_tab && bar.tab_right == right
        }),
{
    let bar = bar_of(snapshot, area, mouse, style, scroll, reveal);
    let widths = wanted(bar.tabs);
    let start_x = if bar.buttons {
        bar.left_button.right_edge()
    } else {
        bar.content.x
    };
    lemma_scroll_is_a_place(snapshot, area, mouse, style, scroll, reveal);
    lemma_row_is_filled(widths, bar.scroll, start_x, bar.tab_right, area.y, gap_of(style));
    lemma_placed(widths, bar.scroll, start_x, bar.tab_right, area.y, gap_of(style));
    law_tabs_keep_their_room(snapshot, area);
    if bar.placed.len() > 0 {
        assert(bar.placed.last() == bar.placed[bar.placed.len() - 1]);
    }
}

proof fn lemma_total_columns(widths: Seq<u16>, n: int)
    requires
        0 <= n <= widths.len(),
    ensures
        total_columns(widths.take(n)) == (if run_columns(widths, 0, n, 0) > u16::MAX {
            u16::MAX as int
        } else {
            run_columns(widths, 0, n, 0)
        }),
        0 <= run_columns(widths, 0, n, 0),
    decreases n,
{
    if n > 0 {
        lemma_total_columns(widths, n - 1);
        lemma_run_from_the_end(widths, 0, n, 0);
        assert(widths.take(n).drop_last() =~= widths.take(n - 1));
    }
}

/// The bar scrolls exactly where the tabs, the gaps between them and the control
/// that opens a tab want more columns than there are; with a mouse only where
/// the scroll buttons leave room for a tab.
pub proof fn law_bar_scrolls_where_tabs_do_not_fit(
    widths: Seq<u16>,
    content: Rect,
    mouse: bool,
    gap: u16,
)
    requires
        0 < widths.len() <= u16::MAX,
        gap <= 1,
        content.width < u16::MAX,
    ensures
        overflows(widths, content, mouse, gap) <==> {
            let all = run_columns(widths, 0, widths.len() as int, 0) + (widths.len() - 1) * gap
                + (if mouse {
                3int
            } else {
                0int
            });
            all > content.width && (mouse ==> content.width >= 17)
        },
{
    lemma_total_columns(widths, widths.len() as int);
    assert(widths.take(widths.len() as int) =~= widths);
    assert((widths.len() - 1) * gap == (if gap == 0 {
        0
    } else {
        widths.len() - 1
    })) by (nonlinear_arith)
        requires
            gap <= 1,
    ;
}

/// A bar that is not to reveal a tab stays where it was scrolled to, unless that
/// is further than the last tab needs: then it stops just where the last tab is
/// in view.
pub proof fn law_scroll_stays_where_it_was(
    snapshot: SnapshotView,
    area: Rect,
    mouse: bool,
    style: TabCapStyleConfig,
    scroll: int,
)
    requires
        0 <= scroll,
        area.x + area.width <= u16::MAX,
        content_area(snapshot, area).width > 0,
        bar_tabs(snapshot).len() > 0,
    ensures
        ({
            let bar = bar_of(snapshot, area, mouse, style, scroll, false);
            let widths = wanted(bar.tabs);
            let end = bar.tabs.len() - 1;
            let overflow = overflows(widths, bar.content, mouse, gap_of(style));
            &&& !overflow ==> bar.scroll == 0
            &&& overflow ==> bar.scroll <= scroll
            &&& overflow && bar.scroll < scroll ==> {
                &&& bar.placed.len() > 0 && bar.placed.last().0 == end
                &&& forall|s: int|
                    0 <= s < bar.scroll ==> #[trigger] run_columns(widths, s, end, gap_of(style))
                        >= tab_room(bar.content, overflow, mouse)
            }
        }),
{
    let bar = bar_of(snapshot, area, mouse, style, scroll, false);
    let widths = wanted(bar.tabs);
    let gap = gap_of(style);
    let end = widths.len() - 1;
    let overflow = overflows(widths, bar.content, mouse, gap);
    let room = tab_room(bar.content, overflow, mouse);
    let start_x = if bar.buttons {
        bar.left_button.right_edge()
    } else {
        bar.content.x
    };
    lemma_max_scroll_from(widths, room, gap, 0);
    if overflow && bar.scroll < scroll {
        assert(room > 0);
        assert(sat_sub(bar.tab_right as int, start_x as int) == room);
        assert(last_visible_from(
            end + 1,
            widths,
            sat_sub(room as int, widths[end] + gap),
            gap,
        ) is None);
        assert(shows_the_end(end, widths, room, gap));
        assert(shows_the_end(bar.scroll, widths, room, gap));
        lemma_placed(widths, bar.scroll, start_x, bar.tab_right, area.y, gap);
        assert forall|s: int| 0 <= s < bar.scroll implies #[trigger] run_columns(
            widths,
            s,
            end,
            gap,
        ) >= room by {
            if run_columns(widths, s, end, gap) < room {
                lemma_reached_tab_is_visible(widths, s, end, room, gap);
                assert(shows_the_end(s, widths, room, gap));
            }
        }
    }
}

/// How far the middle of the focused tab stands from the middle of `available`
/// columns, in half columns, when the bar starts at the tab `start`.
pub open spec fn middle_distance(
    start: int,
    focused: int,
    widths: Seq<u16>,
    available: int,
    gap: u16,
) -> int {
    let before = run_columns(widths, start, focused, gap);
    let shown = if widths[focused] < available - before {
        widths[focused] as int
    } else {
        available - before
    };
    let twice = before + before + shown - available;
    if twice < 0 {
        -twice
    } else {
        twice
    }
}

/// A revealed tab stands as near to the middle as a tab boundary allows: no other
/// start that shows the tab brings it nearer.
pub proof fn law_revealed_tab_stands_in_the_middle(
    focused: int,
    widths: Seq<u16>,
    available: u16,
    gap: u16,
    other: int,
)
    requires
        0 <= other <= focused < widths.len(),
        0 < available <= 20_000,
        run_columns(widths, other, focused, gap) < available,
    ensures
        ({
            let start = centered_scroll(focused, widths, available, gap);
            &&& 0 <= start <= focused
            &&& run_columns(widths, start, focused, gap) < available
            &&& middle_distance(start, focused, widths, available as int, gap) <= middle_distance(
                other,
                focused,
                widths,
                available as int,
                gap,
            )
        }),
{
    let start = centered_scroll(focused, widths, available, gap);
    lemma_centered_scroll(focused, widths, available, gap);
    lemma_columns_before(widths, start, focused, gap);
    lemma_columns_before(widths, other, focused, gap);
    assert(reaches(start, focused, widths, available, gap));
    assert(reaches(other, focused, widths, available, gap));
}

/// The sum of the columns of the entries.
pub open spec fn entries_width(entries: Seq<TabStatusView>) -> int
    decreases entries.len(),
{
    if entries.len() == 0 {
        0
    } else {
        entries_width(entries.drop_last()) + columns(entries.last().text)
    }
}

proof fn lemma_entry_columns(entries: Seq<TabStatusView>)
    ensures
        0 <= entries_width(entries),
        entry_columns(entries) == (if entries_width(entries) > u16::MAX {
            u16::MAX as int
        } else {
            entries_width(entries)
        }),
    decreases entries.len(),
{
    if entries.len() > 0 {
        lemma_entry_columns(entries.drop_last());
    }
}

/// The endpoint's decoration wants the columns of its entries and of a separator
/// between each two of them.
pub proof fn law_decoration_width(snapshot: SnapshotView)
    requires
        !strip_enabled(snapshot),
        0 < snapshot.tab_bar_right.len() <= u16::MAX,
        entries_width(snapshot.tab_bar_right) + columns(snapshot.tab_bar_right_separator) * (
        snapshot.tab_bar_right.len() - 1) <= u16::MAX,
    ensures
        status_columns(snapshot) == entries_width(snapshot.tab_bar_right) + columns(
            snapshot.tab_bar_right_separator,
        ) * (snapshot.tab_bar_right.len() - 1),
{
    lemma_entry_columns(snapshot.tab_bar_right);
    assert(0 <= columns(snapshot.tab_bar_right_separator) * (snapshot.tab_bar_right.len() - 1))
        by (nonlinear_arith)
        requires
            0 <= columns(snapshot.tab_bar_right_separator),
            0 < snapshot.tab_bar_right.len(),
    ;
}

/// What stands at the right of the bar, the decoration or the strip, ends at its
/// right edge, and one blank column sets it apart from the tabs. It is there
/// wherever it wants columns and leaves the tabs their least width.
pub proof fn law_decoration_ends_at_the_right_edge(snapshot: SnapshotView, area: Rect)
    requires
        area.x + area.width <= u16::MAX,
    ensures
        ({
            let content = content_area(snapshot, area);
            let right = area.x + area.width;
            let zone = if strip_enabled(snapshot) {
                strip_area(snapshot, area)
            } else {
                status_area(snapshot, area)
            };
            &&& zone matches Some(rect) ==> {
                &&& rect.width > 0
                &&& rect.y == area.y
                &&& rect.x + rect.width == right
                &&& content.x == area.x
                &&& content.x + content.width + 1 == rect.x
                &&& content.width >= 17
            }
            &&& zone is None ==> content == area
            &&& !strip_enabled(snapshot) ==> (zone is Some <==> status_columns(snapshot) > 0
                && status_columns(snapshot) + 1 + 17 <= area.width)
            &&& !strip_enabled(snapshot) && zone is Some ==> zone->0.width == status_columns(
                snapshot,
            )
            &&& strip_enabled(snapshot) && area.width > 18 ==> (zone is Some <==> strip_wants(
                snapshot,
                (area.width - 18) as u16,
            ) > 0)
            &&& strip_enabled(snapshot) && area.width <= 18 ==> zone is None
        }),
{
}

/// The entries of the decoration stand one behind the other, each with its own
/// text: the first at the left of the zone, each other one behind a separator
/// after the one before it. An accented entry is bold in the accent color.
pub proof fn law_entries_stand_in_order(snapshot: SnapshotView, x: u16, y: u16, palette: Palette, n: int)
    requires
        0 <= n < snapshot.tab_bar_right.len(),
        entry_text_x(snapshot, x, n) + columns(snapshot.tab_bar_right[n].text) + columns(
            snapshot.tab_bar_right_separator,
        ) <= u16::MAX,
    ensures
        entry_text_x(snapshot, x, 0) == x,
        entry_text_x(snapshot, x, n + 1) == entry_text_x(snapshot, x, n) + columns(
            snapshot.tab_bar_right[n].text,
        ) + columns(snapshot.tab_bar_right_separator),
        ({
            let entry = snapshot.tab_bar_right[n];
            let steps = entry_steps(snapshot, x, y, palette, n);
            &&& steps.last() matches DrawOpView::Text {
                x: at,
                y: row,
                width,
                text,
                style,
            } && at == entry_text_x(snapshot, x, n) && row == y && width == columns(entry.text)
                && text == entry.text && style.fg == Some(
                if entry.accent {
                    palette.panel_contrast_fg
                } else {
                    palette.overlay1
                },
            ) && style.bg == Some(
                if entry.accent {
                    palette.accent
                } else {
                    palette.panel_bg
                },
            ) && style.add_modifier.bits == (if entry.accent {
                0x1u16
            } else {
                0u16
            })
            &&& n > 0 && columns(snapshot.tab_bar_right_separator) > 0 ==> steps.len() == 2
                && (steps[0] matches DrawOpView::Text { text, style, .. } && text
                == snapshot.tab_bar_right_separator && style.fg == Some(palette.overlay0)
                && style.bg == Some(palette.panel_bg))
            &&& n == 0 || columns(snapshot.tab_bar_right_separator) == 0 ==> steps.len() == 1
        }),
{
    assert(0u16 | 0x1u16 == 0x1u16) by (bit_vector);
    reveal_with_fuel(entry_x, 3);
    reveal_with_fuel(entry_text_x, 3);
}

proof fn lemma_tab_place(tabs: Seq<TabView>, id: Seq<char>, i: int)
    requires
        0 <= i,
    ensures
        match tab_place(tabs, id, i) {
            Some(k) => i <= k < tabs.len() && tabs[k].tab_id == id && forall|j: int|
                i <= j < k ==> (#[trigger] tabs[j]).tab_id != id,
            None => forall|j: int| i <= j < tabs.len() ==> (#[trigger] tabs[j]).tab_id != id,
        },
    decreases tabs.len() - i,
{
    if i < tabs.len() && tabs[i].tab_id != id {
        lemma_tab_place(tabs, id, i + 1);
    }
}

proof fn lemma_view_of(shown: Seq<(int, Rect)>, at: int, i: int, k: int)
    requires
        0 <= i <= k < shown.len(),
        shown[k].0 == at,
        forall|j: int| i <= j < k ==> (#[trigger] shown[j]).0 != at,
    ensures
        view_of(shown, at, i) == Some(shown[k].1),
    decreases k - i,
{
    if i < k {
        assert(shown[i].0 != at);
        lemma_view_of(shown, at, i + 1, k);
    }
}

/// The tabs in view are those of a row that starts at the tab `first`.
pub open spec fn hits_show_row(hits: Seq<(Rect, Seq<char>)>, tabs: Seq<TabView>, first: int) -> bool {
    &&& 0 <= first && first + hits.len() <= tabs.len()
    &&& forall|k: int| 0 <= k < hits.len() ==> (#[trigger] hits[k]).1 == tabs[first + k].tab_id
    &&& forall|i: int, j: int|
        0 <= i < j < tabs.len() ==> (#[trigger] tabs[i]).tab_id != (#[trigger] tabs[j]).tab_id
}

proof fn lemma_row_in_view(hits: Seq<(Rect, Seq<char>)>, tabs: Seq<TabView>, first: int)
    requires
        hits_show_row(hits, tabs, first),
    ensures
        tabs_in_view(hits, tabs) == Seq::new(hits.len(), |k: int| (first + k, hits[k].0)),
    decreases hits.len(),
{
    let shown = Seq::new(hits.len(), |k: int| (first + k, hits[k].0));
    if hits.len() > 0 {
        let front = hits.drop_last();
        assert forall|k: int| 0 <= k < front.len() implies (#[trigger] front[k]).1 == tabs[first
            + k].tab_id by {
            assert(front[k] == hits[k]);
        }
        lemma_row_in_view(front, tabs, first);
        let last = hits.len() - 1;
        assert(hits[last].1 == tabs[first + last].tab_id);
        lemma_tab_place(tabs, hits.last().1, 0);
        assert(tab_place(tabs, hits.last().1, 0) == Some(first + last));
        assert(tabs_in_view(hits, tabs) =~= shown);
    } else {
        assert(tabs_in_view(hits, tabs) =~= shown);
    }
}

/// A dragged tab drops just before the tab that is at its target now: one column
/// left of that tab, or at the left edge of the first one. Behind the last tab it
/// drops at that tab's right edge; a target that is out of view is shown at the
/// scroll button towards it.
pub proof fn law_drop_mark_stands_before_the_target(
    hits: HitsView,
    tabs: Seq<TabView>,
    first: int,
    target: int,
)
    requires
        hits.tabs.len() > 0,
        hits_show_row(hits.tabs, tabs, first),
        0 <= target,
    ensures
        target == 0 && first == 0 ==> drop_x(hits, tabs, target) == Some(hits.tabs[0].0.x),
        target == 0 && first > 0 ==> drop_x(hits, tabs, target) == Some(
            hits.tab_scroll_left.right_edge(),
        ),
        0 < target && first <= target < first + hits.tabs.len() && hits.tabs[target - first].0.x > 0
            ==> drop_x(hits, tabs, target) == Some((hits.tabs[target - first].0.x - 1) as u16),
        target >= tabs.len() && first + hits.tabs.len() == tabs.len() ==> drop_x(
            hits,
            tabs,
            target,
        ) == Some(hits.tabs.last().0.right_edge()),
        target >= tabs.len() && first + hits.tabs.len() < tabs.len() && hits.tab_scroll_right.x > 0
            ==> drop_x(hits, tabs, target) == Some((hits.tab_scroll_right.x - 1) as u16),
{
    lemma_row_in_view(hits.tabs, tabs, first);
    let shown = tabs_in_view(hits.tabs, tabs);
    assert(shown[0] == (first, hits.tabs[0].0));
    assert(shown.last() == (first + hits.tabs.len() - 1, hits.tabs.last().0));
    if 0 < target && first <= target < first + hits.tabs.len() {
        lemma_view_of(shown, target, 0, target - first);
    }
    if target >= tabs.len() {
        lemma_not_in_view(shown, target, 0);
    }
}

proof fn lemma_not_in_view(shown: Seq<(int, Rect)>, at: int, i: int)
    requires
        0 <= i,
        forall|j: int| 0 <= j < shown.len() ==> (#[trigger] shown[j]).0 != at,
    ensures
        view_of(shown, at, i) is None,
    decreases shown.len() - i,
{
    if i < shown.len() {
        assert(shown[i].0 != at);
        lemma_not_in_view(shown, at, i + 1);
    }
}

/// An ellipsis stands at each end of the row behind which tabs are hidden, and
/// nowhere else: at the left where the bar is scrolled, at the right where the
/// last tab is out of view.
pub proof fn law_hidden_tabs_are_marked(bar: BarView, hits: HitsView, y: u16, palette: Palette)
    requires
        bar.placed.len() > 0,
        0 <= bar.scroll,
        bar.placed[0].0 == bar.scroll,
    ensures
        bar.left_mark(hits, y, palette).len() == (if bar.scroll > 0 {
            1nat
        } else {
            0nat
        }),
        bar.right_mark(hits, y, palette).len() == (if bar.placed.last().0 + 1 < bar.tabs.len() {
            1nat
        } else {
            0nat
        }),
        bar.scroll > 0 ==> (bar.left_mark(hits, y, palette)[0] matches DrawOpView::Text {
            x,
            text,
            ..
        } && text == seq!['\u{2026}'] && x == (if hits.tab_scroll_left.width > 0 {
            hits.tab_scroll_left.right_edge()
        } else {
            bar.content.x
        })),
        bar.hides_right() ==> (bar.right_mark(hits, y, palette)[0] matches DrawOpView::Text {
            text,
            ..
        } && text == seq!['\u{2026}']),
{
    reveal_strlit("\u{2026}");
    assert("\u{2026}"@ =~= seq!['\u{2026}']);
}

/// The buttons of the bar show where they lead: the left one is bright while the
/// bar is scrolled, the right one while tabs are hidden there.
pub proof fn law_buttons_show_where_they_lead(bar: BarView, y: u16, mouse: bool, palette: Palette)
    requires
        bar.buttons,
        mouse,
    ensures
        bar.left_steps(palette).len() == 1,
        bar.left_steps(palette)[0] matches DrawOpView::Text { x, width, text, style, .. } && x
            == bar.left_button.x && width == bar.left_button.width && text == seq![' ', '<', ' ']
            && style.fg == Some(
            if bar.scroll > 0 {
                palette.overlay1
            } else {
                palette.overlay0
            },
        ) && style.bg == Some(palette.surface0),
        bar.right_steps(y, palette).len() == 1,
        bar.right_steps(y, palette)[0] matches DrawOpView::Text { x, width, text, style, .. } && x
            == bar.right_button.x && width == bar.right_button.width && text == seq![' ', '>', ' ']
            && style.fg == Some(
            if bar.placed.len() > 0 && bar.placed.last().0 + 1 < bar.tabs.len() {
                palette.overlay1
            } else {
                palette.overlay0
            },
        ) && style.bg == Some(palette.surface0),
        bar.new_tab_steps(y, mouse, palette).len() == 1,
        bar.new_tab_steps(y, mouse, palette)[0] matches DrawOpView::Text { x, width, text, .. } && x
            == bar.new_tab.x && width == bar.new_tab.width && text == seq![' ', '+', ' '],
{
    reveal_strlit(" < ");
    reveal_strlit(" > ");
    reveal_strlit(" + ");
    assert(" < "@ =~= seq![' ', '<', ' ']);
    assert(" > "@ =~= seq![' ', '>', ' ']);
    assert(" + "@ =~= seq![' ', '+', ' ']);
}

/// The tab that counts as focused is the first one that is; without one none
/// counts, and the bar stays where it was scrolled to. A row that fits is never
/// scrolled.
pub proof fn law_first_focused_tab_counts(
    tabs: Seq<TabView>,
    k: int,
    available: u16,
    gap: u16,
    scroll: int,
    reveal: bool,
)
    ensures
        0 <= k < tabs.len() && tabs[k].focused && (forall|j: int|
            0 <= j < k ==> !(#[trigger] tabs[j]).focused) ==> focused_place(tabs, 0) == Some(k),
        (forall|j: int| 0 <= j < tabs.len() ==> !(#[trigger] tabs[j]).focused) ==> focused_place(
            tabs,
            0,
        ) is None && scroll_of(tabs, true, available, gap, scroll, true) == scroll,
        scroll_of(tabs, false, available, gap, scroll, reveal) == 0,
{
    lemma_focused_place(tabs, 0);
    if focused_place(tabs, 0) is Some {
        assert(tabs[focused_place(tabs, 0)->0].focused);
    }
    if 0 <= k < tabs.len() && tabs[k].focused && (forall|j: int|
        0 <= j < k ==> !(#[trigger] tabs[j]).focused) {
        lemma_no_focus_before(tabs, 0, k);
    }
}

proof fn lemma_no_focus_before(tabs: Seq<TabView>, i: int, k: int)
    requires
        0 <= i <= k < tabs.len(),
        tabs[k].focused,
        forall|j: int| i <= j < k ==> !(#[trigger] tabs[j]).focused,
    ensures
        focused_place(tabs, i) == Some(k),
    decreases k - i,
{
    if i < k {
        assert(!tabs[i].focused);
        lemma_no_focus_before(tabs, i + 1, k);
    }
}

/// The bar is painted over its own ground, and on it everything that belongs to it
/// is drawn: the buttons, the tabs in view, the marks, and what stands at its right.
#[verifier::spinoff_prover]
pub proof fn law_bar_draws_all_its_parts(
    canvas_area: Rect,
    snapshot: SnapshotView,
    area: Rect,
    mouse: bool,
    style: TabCapStyleConfig,
    palette: Palette,
    bar: BarView,
    hits: HitsView,
    target: Option<usize>,
    step: DrawOpView,
)
    ensures
        ({
            let steps = bar_steps(
                canvas_area,
                snapshot,
                area,
                mouse,
                style,
                palette,
                bar,
                hits,
                target,
            );
            let seen = bar.hits_after(hits, mouse);
            let tabs = tabs_steps(
                canvas_area,
                bar.tabs,
                bar.placed,
                palette,
                style,
                bar.placed.len() as int,
            );
            &&& steps[0] is Fill && steps[0]->Fill_area == area && steps[0]->Fill_style.bg == Some(
                palette.panel_bg,
            ) && steps[0]->Fill_style.fg is None
            &&& steps.len() == 1 + bar.left_steps(palette).len() + tabs.len() + bar.right_steps(
                area.y,
                palette,
            ).len() + bar.new_tab_steps(area.y, mouse, palette).len() + bar.left_mark(
                seen,
                area.y,
                palette,
            ).len() + bar.right_mark(seen, area.y, palette).len() + bar.drop_steps(
                seen,
                target,
                area.y,
                palette,
            ).len() + status_steps(snapshot, area, palette).len() + strip_zone_steps(
                snapshot,
                area,
                palette,
            ).len()
            &&& bar.left_steps(palette).contains(step) ==> steps.contains(step)
            &&& tabs.contains(step) ==> steps.contains(step)
            &&& bar.right_steps(area.y, palette).contains(step) ==> steps.contains(step)
            &&& bar.new_tab_steps(area.y, mouse, palette).contains(step) ==> steps.contains(step)
            &&& bar.left_mark(seen, area.y, palette).contains(step) ==> steps.contains(step)
            &&& bar.right_mark(seen, area.y, palette).contains(step) ==> steps.contains(step)
            &&& bar.drop_steps(seen, target, area.y, palette).contains(step) ==> steps.contains(
                step,
            )
            &&& status_steps(snapshot, area, palette).contains(step) ==> steps.contains(step)
            &&& strip_zone_steps(snapshot, area, palette).contains(step) ==> steps.contains(step)
        }),
{
    let seen = bar.hits_after(hits, mouse);
    let fill = seq![DrawOpView::Fill { area, style: Style::plain().over(palette.panel_bg) }];
    let p1 = bar.left_steps(palette);
    let p2 = tabs_steps(
        canvas_area,
        bar.tabs,
        bar.placed,
        palette,
        style,
        bar.placed.len() as int,
    );
    let p3 = bar.right_steps(area.y, palette);
    let p4 = bar.new_tab_steps(area.y, mouse, palette);
    let p5 = bar.left_mark(seen, area.y, palette);
    let p6 = bar.right_mark(seen, area.y, palette);
    let p7 = bar.drop_steps(seen, target, area.y, palette);
    let p8 = status_steps(snapshot, area, palette);
    let p9 = strip_zone_steps(snapshot, area, palette);
    let steps = bar_steps(canvas_area, snapshot, area, mouse, style, palette, bar, hits, target);
    assert(steps =~= fill + p1 + p2 + p3 + p4 + p5 + p6 + p7 + p8 + p9);
    lemma_contains_add(fill, p1, step);
    lemma_contains_add(fill + p1, p2, step);
    lemma_contains_add(fill + p1 + p2, p3, step);
    lemma_contains_add(fill + p1 + p2 + p3, p4, step);
    lemma_contains_add(fill + p1 + p2 + p3 + p4, p5, step);
    lemma_contains_add(fill + p1 + p2 + p3 + p4 + p5, p6, step);
    lemma_contains_add(fill + p1 + p2 + p3 + p4 + p5 + p6, p7, step);
    lemma_contains_add(fill + p1 + p2 + p3 + p4 + p5 + p6 + p7, p8, step);
    lemma_contains_add(fill + p1 + p2 + p3 + p4 + p5 + p6 + p7 + p8, p9, step);
}

proof fn lemma_contains_add(a: Seq<DrawOpView>, b: Seq<DrawOpView>, x: DrawOpView)
    ensures
        (a + b).contains(x) == (a.contains(x) || b.contains(x)),
{
    if a.contains(x) {
        let k = choose|k: int| 0 <= k < a.len() && a[k] == x;
        assert((a + b)[k] == x);
    }
    if b.contains(x) {
        let k = choose|k: int| 0 <= k < b.len() && b[k] == x;
        assert((a + b)[a.len() + k] == x);
    }
}

/// The marks of the bar: an ellipsis in the muted color for tabs that are hidden, a
/// bar in the accent color where a dragged tab would drop, kept inside the bar; and
/// the button for a new tab stands on the bar's own ground.
pub proof fn law_marks_of_the_bar(
    bar: BarView,
    hits: HitsView,
    target: usize,
    y: u16,
    palette: Palette,
)
    ensures
        bar.hides_left() ==> (bar.left_mark(hits, y, palette)[0] matches DrawOpView::Text {
            y: at,
            style,
            ..
        } && at == y && style.fg == Some(palette.overlay0) && style.bg is None),
        bar.hides_right() ==> (bar.right_mark(hits, y, palette)[0] matches DrawOpView::Text {
            x,
            y: at,
            style,
            ..
        } && at == y && style.fg == Some(palette.overlay0) && style.bg is None && (
        hits.tab_scroll_right.width > 0 && hits.tab_scroll_right.x > 0 ==> x
            == hits.tab_scroll_right.x - 1)),
        drop_x(hits, bar.tabs, target as int) is None ==> bar.drop_steps(
            hits,
            Some(target),
            y,
            palette,
        ).len() == 0,
        drop_x(hits, bar.tabs, target as int) matches Some(x) ==> bar.drop_steps(
            hits,
            Some(target),
            y,
            palette,
        ).len() == 1 && (bar.drop_steps(hits, Some(target), y, palette)[0] matches DrawOpView::Text {
            x: at,
            y: line,
            width,
            text,
            style,
        } && line == y && width == 1 && text == seq!['\u{2502}'] && style.fg == Some(palette.accent)
            && style.bg is None && (x < bar.content.right_edge() ==> at == x) && at <= x),
        bar.drop_steps(hits, None, y, palette).len() == 0,
        bar.new_tab_steps(y, true, palette)[0] matches DrawOpView::Text { y: at, style, .. } && at
            == y && style.fg == Some(palette.overlay1) && style.bg == Some(palette.panel_bg),
        bar.new_tab_steps(y, false, palette).len() == 0,
{
    reveal_strlit("\u{2502}");
    assert("\u{2502}"@ =~= seq!['\u{2502}']);
}

/// A bar that is not asked to reveal a tab stays where it was, but never scrolls past
/// the first place from which the last tab is in view.
pub proof fn law_bar_never_scrolls_past_the_end(
    tabs: Seq<TabView>,
    available: u16,
    gap: u16,
    scroll: int,
)
    requires
        0 <= scroll,
    ensures
        ({
            let widths = wanted(tabs);
            let at = scroll_of(tabs, true, available, gap, scroll, false);
            &&& 0 <= at <= scroll
            &&& forall|s: int| 0 <= s < at ==> !#[trigger] shows_the_end(s, widths, available, gap)
            &&& at < scroll ==> at == 0 || shows_the_end(at, widths, available, gap)
        }),
{
    lemma_max_scroll_from(wanted(tabs), available, gap, 0);
}

} // verus!
