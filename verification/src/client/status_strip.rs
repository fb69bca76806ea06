//! How a client shows the status strip: in the colors of its own theme, and as
//! much of it as fits its own terminal.

use vstd::prelude::*;
use vstd::slice::slice_subrange;

use crate::canvas::{
    clipped_columns, min16, sat_add, sat_sub, smaller, Canvas, DrawOpView, Modifier, Palette,
    Rect, Style,
};
use crate::client::colors::resolved_color;
use crate::client::{ClientShellSnapshot, ClientShellStatusSegment, SnapshotView, StatusSegmentView};
use crate::text::{owned, views};
use crate::width::{
    cells_width, columns, display_width, ellipsize, ellipsized, fitting_prefix,
    kept_before_ellipsis, lemma_cells_width_monotone, lemma_fitting_prefix, plain_text, str_width,
    CellMeasure,
};

pub use crate::client::colors::{resolve_color, theme_token};

verus! {

// --- style -------------------------------------------------------------------------

/// `style` with the foreground of a directive value, where it stands for one.
pub open spec fn with_fg(style: Style, value: Option<Seq<char>>, palette: Palette) -> Style {
    match value {
        Some(text) => match resolved_color(text, palette) {
            Some(color) => style.in_color(color),
            None => style,
        },
        None => style,
    }
}

/// `style` with the background of a directive value, where it stands for one.
pub open spec fn with_bg(style: Style, value: Option<Seq<char>>, palette: Palette) -> Style {
    match value {
        Some(text) => match resolved_color(text, palette) {
            Some(color) => style.over(color),
            None => style,
        },
        None => style,
    }
}

/// The style of a segment over the strip's base.
pub open spec fn styled(segment: StatusSegmentView, base: Style, palette: Palette) -> Style {
    with_bg(with_fg(base, segment.fg, palette), segment.bg, palette).adding(
        Modifier::known(segment.modifiers),
    )
}

/// The style of a segment: its directive values over the base. A segment
/// without any has the base style, whatever stands before it.
pub fn segment_style(segment: &ClientShellStatusSegment, base: Style, palette: &Palette) -> (r:
    Style)
    ensures
        r == styled(segment@, base, *palette),
{
    let mut style = base;
    if let Some(fg) = &segment.fg {
        if let Some(color) = resolve_color(fg.as_str(), palette) {
            style = style.fg(color);
        }
    }
    if let Some(bg) = &segment.bg {
        if let Some(color) = resolve_color(bg.as_str(), palette) {
            style = style.bg(color);
        }
    }
    style.add_modifier(Modifier::from_bits_truncate(segment.modifiers))
}

/// The strip's base style.
pub open spec fn strip_base(palette: Palette) -> Style {
    Style::plain().in_color(palette.overlay1).over(palette.panel_bg)
}

pub fn base_style(palette: &Palette) -> (r: Style)
    ensures
        r == strip_base(*palette),
{
    Style::new().fg(palette.overlay1).bg(palette.panel_bg)
}

// --- fitting -----------------------------------------------------------------------

/// Columns of the segments side by side, as far as sixteen bits count.
pub open spec fn strip_columns(segs: Seq<StatusSegmentView>) -> u16
    decreases segs.len(),
{
    if segs.len() == 0 {
        0
    } else {
        sat_add(strip_columns(segs.drop_last()) as int, columns(segs.last().text) as int)
    }
}

pub fn segments_width(segments: &[ClientShellStatusSegment]) -> (w: u16)
    ensures
        w == strip_columns(views(segments@)),
{
    let ghost all = views(segments@);
    let mut w: u16 = 0;
    let mut i: usize = 0;
    assert(all.take(0) =~= Seq::<StatusSegmentView>::empty());
    while i < segments.len()
        invariant
            i <= segments@.len(),
            all == views(segments@),
            w == strip_columns(all.take(i as int)),
        decreases segments@.len() - i,
    {
        w = w.saturating_add(display_width(segments[i].text.as_str()));
        i = i + 1;
        assert(all.take(i as int).drop_last() =~= all.take(i - 1));
        assert(all.take(i as int).last() == segments@[i - 1]@);
    }
    assert(all.take(i as int) =~= all);
    w
}

/// A text within `budget` display columns: itself where it fits, else cut with
/// a closing ellipsis.
pub open spec fn truncated(text: Seq<char>, budget: u16) -> Seq<char> {
    if columns(text) <= budget {
        text
    } else {
        ellipsized(CellMeasure::Bare, text, budget as nat)
    }
}

/// Cut a text to at most `budget` display columns.
pub fn truncate_to_columns(text: &str, budget: u16) -> (r: String)
    ensures
        r@ == truncated(text@, budget),
        columns(text@) > budget && budget > 0 ==> cells_width(
            CellMeasure::Bare,
            kept_before_ellipsis(CellMeasure::Bare, text@, budget as nat),
        ) <= budget - 1 && r@.len() > 0 && r@.last() == '\u{2026}' && r@.drop_last()
            == kept_before_ellipsis(CellMeasure::Bare, text@, budget as nat),
        columns(text@) > budget && plain_text(text@) ==> plain_text(r@) && r@.len() <= budget,
{
    if display_width(text) <= budget {
        return owned(text);
    }
    ellipsize(CellMeasure::Bare, text, budget as usize)
}

/// The first place that stays when the segment at `i` goes: a separator that
/// would then lead goes too, unless it is all that is left.
pub open spec fn next_cut(segs: Seq<StatusSegmentView>, i: int) -> int {
    if i + 2 < segs.len() && segs[i + 1].separator {
        i + 2
    } else {
        i + 1
    }
}

/// Where the fitted segments start when those before `i` are gone already:
/// segments go from the left until the rest fits or one is left.
pub open spec fn cut_from(segs: Seq<StatusSegmentView>, i: int, budget: u16) -> int
    decreases segs.len() - i,
{
    if 0 <= i && i + 1 < segs.len() && strip_columns(segs.skip(i)) > budget {
        cut_from(segs, next_cut(segs, i), budget)
    } else {
        i
    }
}

/// The segments that stay.
pub open spec fn survivors(segs: Seq<StatusSegmentView>, budget: u16) -> Seq<StatusSegmentView> {
    segs.skip(cut_from(segs, 0, budget))
}

/// The text that replaces that of a lone segment which is still too wide.
pub open spec fn cut_text(segs: Seq<StatusSegmentView>, budget: u16) -> Option<Seq<char>> {
    let left = survivors(segs, budget);
    if strip_columns(left) <= budget || left.len() == 0 {
        None
    } else {
        Some(truncated(left[0].text, budget))
    }
}

/// Columns of what is drawn.
pub open spec fn fitted_columns(segs: Seq<StatusSegmentView>, budget: u16) -> u16 {
    match cut_text(segs, budget) {
        Some(text) => columns(text),
        None => strip_columns(survivors(segs, budget)),
    }
}

/// The part of the strip that fits into a budget: always the right end of what
/// was pushed.
pub struct FittedStrip<'a> {
    segments: &'a [ClientShellStatusSegment],
    truncated_first: Option<String>,
    width: u16,
}

/// The part of the strip that fits, with its texts as characters.
pub struct FittedView {
    pub segments: Seq<StatusSegmentView>,
    pub truncated_first: Option<Seq<char>>,
    pub width: u16,
}

impl View for FittedStrip<'_> {
    type V = FittedView;

    closed spec fn view(&self) -> FittedView {
        FittedView {
            segments: views(self.segments@),
            truncated_first: match self.truncated_first {
                Some(text) => Some(text@),
                None => None,
            },
            width: self.width,
        }
    }
}

impl FittedView {
    /// What the segment at `i` shows.
    pub open spec fn text_at(self, i: int) -> Seq<char> {
        match self.truncated_first {
            Some(text) if i == 0 => text,
            _ => self.segments[i].text,
        }
    }
}

/// What fits of the segments.
pub open spec fn fitted(segs: Seq<StatusSegmentView>, budget: u16) -> FittedView {
    FittedView {
        segments: survivors(segs, budget),
        truncated_first: cut_text(segs, budget),
        width: fitted_columns(segs, budget),
    }
}

impl<'a> FittedStrip<'a> {
    pub fn width(&self) -> (w: u16)
        ensures
            w == self@.width,
    {
        self.width
    }

    pub fn len(&self) -> (n: usize)
        ensures
            n == self@.segments.len(),
    {
        self.segments.len()
    }

    /// A surviving segment.
    pub fn segment_at(&self, i: usize) -> (r: &'a ClientShellStatusSegment)
        requires
            i < self@.segments.len(),
        ensures
            r@ == self@.segments[i as int],
    {
        &self.segments[i]
    }

    /// The text of a surviving segment.
    pub fn text_at(&self, i: usize) -> (r: &str)
        requires
            i < self@.segments.len(),
        ensures
            r@ == self@.text_at(i as int),
    {
        if i == 0 {
            if let Some(text) = &self.truncated_first {
                return text.as_str();
            }
        }
        self.segments[i].text.as_str()
    }

    /// Each surviving segment with its text, in draw order.
    pub fn texts(&self) -> (r: Vec<(&'a ClientShellStatusSegment, String)>)
        ensures
            r@.len() == self@.segments.len(),
            forall|i: int|
                0 <= i < r@.len() ==> (#[trigger] r@[i]).0@ == self@.segments[i] && r@[i].1@
                    == self@.text_at(i),
    {
        let mut r: Vec<(&'a ClientShellStatusSegment, String)> = Vec::new();
        let total: usize = self.len();
        let mut i: usize = 0;
        while i < total
            invariant
                i <= total,
                total == self@.segments.len(),
                r@.len() == i,
                forall|k: int|
                    0 <= k < r@.len() ==> (#[trigger] r@[k]).0@ == self@.segments[k] && r@[k].1@
                        == self@.text_at(k),
            decreases total - i,
        {
            r.push((self.segment_at(i), owned(self.text_at(i))));
            i = i + 1;
        }
        r
    }
}

/// Fit the segments into `budget` display columns: whole segments go from the
/// left, with a separator that would lead, and a last one that is still too
/// wide is cut. Each survivor keeps its own style.
pub fn fit_strip<'a>(segments: &'a [ClientShellStatusSegment], budget: u16) -> (r: FittedStrip<'a>)
    ensures
        r@ == fitted(views(segments@), budget),
        r@.truncated_first is None ==> r@.width <= budget,
        str_width(cut_kept(views(segments@), budget)) <= cells_width(
            CellMeasure::Bare,
            cut_kept(views(segments@), budget),
        ) ==> r@.width <= budget,
        plain_text(lone_text(views(segments@), budget)) ==> r@.width <= budget,
{
    let ghost segs = views(segments@);
    let total: usize = segments.len();
    let mut cut: usize = 0;
    assert(segs.skip(0) =~= segs);
    let mut remaining: &'a [ClientShellStatusSegment] = segments;
    while remaining.len() > 1 && segments_width(remaining) > budget
        invariant
            total == segments@.len(),
            segs == views(segments@),
            cut <= total,
            views(remaining@) == segs.skip(cut as int),
            remaining@ == segments@.skip(cut as int),
            cut_from(segs, 0, budget) == cut_from(segs, cut as int, budget),
        decreases total - cut,
    {
        let size: usize = remaining.len();
        assert(size == total - cut);
        assert(size > 2 ==> segs[cut + 1].separator == remaining@[1].separator);
        let step: usize = if size > 2 && remaining[1].separator {
            2
        } else {
            1
        };
        remaining = slice_subrange(remaining, step, size);
        cut = cut + step;
        assert(remaining@ =~= segments@.skip(cut as int));
        assert(views(remaining@) =~= segs.skip(cut as int));
    }
    let ghost left = segs.skip(cut as int);
    assert(left == survivors(segs, budget));
    let width: u16 = segments_width(remaining);
    if width <= budget {
        return FittedStrip { segments: remaining, truncated_first: None, width };
    }
    if remaining.len() == 0 {
        return FittedStrip { segments: remaining, truncated_first: None, width };
    }
    assert(left[0] == remaining@[0]@);
    let text = truncate_to_columns(remaining[0].text.as_str(), budget);
    let cut_width: u16 = display_width(text.as_str());
    proof {
        assert(left.len() == 1);
        assert(left.drop_last() =~= Seq::<StatusSegmentView>::empty());
        assert(strip_columns(left.drop_last()) == 0);
        assert(left.last() == left[0]);
        assert(strip_columns(left) == columns(left[0].text));
        if budget == 0 {
            assert(text@ =~= Seq::<char>::empty());
            assert(plain_text(text@));
        }
    }
    FittedStrip { segments: remaining, truncated_first: Some(text), width: cut_width }
}

/// The text of the first survivor.
pub open spec fn lone_text(segs: Seq<StatusSegmentView>, budget: u16) -> Seq<char> {
    survivors(segs, budget)[0].text
}

/// What a cut segment keeps before its ellipsis.
pub open spec fn cut_kept(segs: Seq<StatusSegmentView>, budget: u16) -> Seq<char> {
    kept_before_ellipsis(CellMeasure::Bare, lone_text(segs, budget), budget as nat)
}

// --- drawing ------------------------------------------------------------------------

/// The endpoint has a strip configured; what it resolves to makes no difference.
pub open spec fn strip_enabled(snapshot: SnapshotView) -> bool {
    snapshot.status_strip_budget > 0
}

/// Whether the endpoint has a strip configured. It then owns the right edge of
/// the tab bar, even while all of its segments resolve to nothing.
pub fn is_enabled(snapshot: &ClientShellSnapshot) -> (r: bool)
    ensures
        r == strip_enabled(snapshot@),
{
    snapshot.status_strip_budget > 0
}

/// Columns that the strip takes out of `available`.
pub open spec fn strip_wants(snapshot: SnapshotView, available: u16) -> u16 {
    if strip_enabled(snapshot) {
        fitted_columns(snapshot.status_strip, min16(snapshot.status_strip_budget, available))
    } else {
        0
    }
}

/// Columns that the strip takes on the tab bar: at most its configured budget,
/// and at most what this client has.
pub fn status_strip_width(snapshot: &ClientShellSnapshot, available: u16) -> (w: u16)
    ensures
        w == strip_wants(snapshot@, available),
        plain_text(
            lone_text(
                snapshot@.status_strip,
                min16(snapshot.status_strip_budget, available),
            ),
        ) ==> w <= snapshot.status_strip_budget && w <= available,
{
    if !is_enabled(snapshot) {
        return 0;
    }
    fit_strip(
        snapshot.status_strip.as_slice(),
        smaller(snapshot.status_strip_budget, available),
    ).width()
}

/// The column after the first `n` segments drawn from `x`.
pub open spec fn strip_x(fit: FittedView, x: u16, right: u16, n: int) -> u16
    decreases n,
{
    if n <= 0 {
        x
    } else {
        let at = strip_x(fit, x, right, n - 1);
        sat_add(at as int, clipped_columns(at, right, fit.text_at(n - 1)) as int)
    }
}

/// The step that draws the segment at `i`.
pub open spec fn strip_step(
    fit: FittedView,
    x: u16,
    y: u16,
    right: u16,
    palette: Palette,
    i: int,
) -> DrawOpView {
    let at = strip_x(fit, x, right, i);
    DrawOpView::Text {
        x: at,
        y,
        width: clipped_columns(at, right, fit.text_at(i)),
        text: fit.text_at(i),
        style: styled(fit.segments[i], strip_base(palette), palette),
    }
}

/// The steps that draw the strip right-aligned into `rect`.
pub open spec fn strip_steps(snapshot: SnapshotView, rect: Rect, palette: Palette) -> Seq<
    DrawOpView,
> {
    if rect.width == 0 || rect.height == 0 {
        Seq::empty()
    } else {
        let fit = fitted(
            snapshot.status_strip,
            min16(snapshot.status_strip_budget, rect.width),
        );
        let right = rect.right_edge();
        let x = sat_sub(right as int, fit.width as int);
        Seq::new(
            fit.segments.len(),
            |i: int| strip_step(fit, x, rect.y, right, palette, i),
        )
    }
}

/// Draw the strip right-aligned into its zone. Reads only what was pushed.
pub fn render_status_strip(
    canvas: &mut Canvas,
    rect: Rect,
    snapshot: &ClientShellSnapshot,
    palette: &Palette,
)
    ensures
        final(canvas).area == old(canvas).area,
        final(canvas)@ == old(canvas)@ + strip_steps(snapshot@, rect, *palette),
{
    let ghost before = canvas@;
    if rect.width == 0 || rect.height == 0 {
        assert(canvas@ =~= before + strip_steps(snapshot@, rect, *palette));
        return;
    }
    let fit = fit_strip(
        snapshot.status_strip.as_slice(),
        smaller(snapshot.status_strip_budget, rect.width),
    );
    let base = base_style(palette);
    let right: u16 = rect.right();
    let start: u16 = right.saturating_sub(fit.width());
    let mut x: u16 = start;
    let total: usize = fit.len();
    let mut i: usize = 0;
    let ghost steps = strip_steps(snapshot@, rect, *palette);
    assert(before + steps.take(0) =~= before);
    while i < total
        invariant
            canvas.area == old(canvas).area,
            i <= total,
            total == fit@.segments.len(),
            fit@ == fitted(
                snapshot@.status_strip,
                min16(snapshot@.status_strip_budget, rect.width),
            ),
            right == rect.right_edge(),
            start == sat_sub(right as int, fit@.width as int),
            rect.width > 0,
            rect.height > 0,
            base == strip_base(*palette),
            steps == strip_steps(snapshot@, rect, *palette),
            x == strip_x(fit@, start, right, i as int),
            canvas@ == before + steps.take(i as int),
        decreases total - i,
    {
        let segment = fit.segment_at(i);
        let style = segment_style(segment, base, palette);
        x = canvas.put_segment(x, rect.y, right, fit.text_at(i), style);
        proof {
            assert(steps.take(i as int + 1) =~= steps.take(i as int).push(steps[i as int]));
            assert(steps[i as int] == strip_step(
                fit@,
                start,
                rect.y,
                right,
                *palette,
                i as int,
            ));
            assert((before + steps.take(i as int)).push(steps[i as int]) =~= before + steps.take(
                i as int + 1,
            ));
        }
        i = i + 1;
    }
    assert(steps.take(i as int) =~= steps);
}

// --- laws ---------------------------------------------------------------------------

/// Fitting keeps the right end of the strip, and keeps all of it where it fits.
pub proof fn law_fitting_keeps_the_right_end(segs: Seq<StatusSegmentView>, budget: u16)
    ensures
        0 <= cut_from(segs, 0, budget) <= segs.len(),
        segs.len() > 0 ==> survivors(segs, budget).len() > 0 && survivors(segs, budget).last()
            == segs.last(),
        strip_columns(segs) <= budget ==> survivors(segs, budget) == segs && cut_text(
            segs,
            budget,
        ) is None,
        cut_text(segs, budget) is Some ==> survivors(segs, budget).len() == 1,
{
    lemma_cut(segs, 0, budget);
    assert(segs.skip(0) =~= segs);
}

proof fn lemma_cut(segs: Seq<StatusSegmentView>, i: int, budget: u16)
    requires
        0 <= i <= segs.len(),
    ensures
        i <= cut_from(segs, i, budget) <= segs.len(),
        i < segs.len() ==> cut_from(segs, i, budget) < segs.len(),
        segs.len() - cut_from(segs, i, budget) <= 1 || strip_columns(
            segs.skip(cut_from(segs, i, budget)),
        ) <= budget,
        strip_columns(segs.skip(i)) <= budget ==> cut_from(segs, i, budget) == i,
    decreases segs.len() - i,
{
    if i + 1 < segs.len() && strip_columns(segs.skip(i)) > budget {
        lemma_cut(segs, next_cut(segs, i), budget);
    }
}

/// After segments went, a separator leads only where it is all that is left or
/// where another separator stood right before it.
pub proof fn law_no_separator_leads(segs: Seq<StatusSegmentView>, budget: u16)
    requires
        segs.len() > 0,
        strip_columns(segs) > budget,
    ensures
        ({
            let left = survivors(segs, budget);
            let gone = segs.len() - left.len();
            !left[0].separator || left.len() == 1 || segs[gone - 1].separator
        }),
{
    assert(segs.skip(0) =~= segs);
    lemma_cut(segs, 0, budget);
    if segs.len() > 1 {
        lemma_cut_leads(segs, 0, budget);
    }
}

proof fn lemma_cut_leads(segs: Seq<StatusSegmentView>, i: int, budget: u16)
    requires
        0 <= i,
        i + 1 < segs.len(),
        strip_columns(segs.skip(i)) > budget,
    ensures
        ({
            let cut = cut_from(segs, i, budget);
            !segs[cut].separator || cut == segs.len() - 1 || segs[cut - 1].separator
        }),
    decreases segs.len() - i,
{
    let next = next_cut(segs, i);
    assert(cut_from(segs, i, budget) == cut_from(segs, next, budget));
    if next + 1 < segs.len() && strip_columns(segs.skip(next)) > budget {
        lemma_cut_leads(segs, next, budget);
    } else {
        assert(cut_from(segs, next, budget) == next);
    }
}

/// Dropping segments never changes the style of one that stays.
pub proof fn law_survivors_keep_their_style(
    segs: Seq<StatusSegmentView>,
    budget: u16,
    i: int,
    base: Style,
    palette: Palette,
)
    requires
        0 <= i < survivors(segs, budget).len(),
    ensures
        styled(survivors(segs, budget)[i], base, palette) == styled(
            segs[segs.len() - survivors(segs, budget).len() + i],
            base,
            palette,
        ),
{
    lemma_cut(segs, 0, budget);
}

/// A value that is neither a color nor a theme token leaves the base as it is.
pub proof fn law_unknown_values_are_ignored(
    segment: StatusSegmentView,
    base: Style,
    palette: Palette,
)
    requires
        segment.fg matches Some(v) ==> resolved_color(v, palette) is None,
        segment.bg matches Some(v) ==> resolved_color(v, palette) is None,
    ensures
        styled(segment, base, palette).fg == base.fg,
        styled(segment, base, palette).bg == base.bg,
{
}

/// The width of a text is the sum of the widths of its characters, wherever it is
/// cut, and an ellipsis behind it takes one column.
pub open spec fn widths_add_up(text: Seq<char>) -> bool {
    forall|n: int|
        #![trigger text.take(n)]
        0 <= n <= text.len() ==> str_width(text.take(n)) == cells_width(
            CellMeasure::Bare,
            text.take(n),
        ) && str_width(text.take(n).push('\u{2026}')) == cells_width(
            CellMeasure::Bare,
            text.take(n),
        ) + 1
}

/// The strip takes no more than its budget and no more than there is; all of it
/// where that fits; and never less where there is more. Only the last segment is
/// ever cut, so only its width has to be the sum of its characters' widths.
pub proof fn law_width_follows_the_room(snapshot: SnapshotView, a1: u16, a2: u16)
    requires
        a1 <= a2,
        snapshot.status_strip.len() > 0 ==> widths_add_up(snapshot.status_strip.last().text),
    ensures
        strip_wants(snapshot, a1) <= snapshot.status_strip_budget,
        strip_wants(snapshot, a1) <= a1,
        strip_columns(snapshot.status_strip) <= min16(snapshot.status_strip_budget, a1)
            ==> strip_wants(snapshot, a1) == strip_columns(snapshot.status_strip),
        strip_wants(snapshot, a1) <= strip_wants(snapshot, a2),
{
    let segs = snapshot.status_strip;
    let b1 = min16(snapshot.status_strip_budget, a1);
    let b2 = min16(snapshot.status_strip_budget, a2);
    lemma_fitted_within(segs, b1);
    lemma_fitted_grows(segs, b1, b2);
    law_fitting_keeps_the_right_end(segs, b1);
}

/// What is left of a strip is no wider than the strip.
proof fn lemma_rest_is_narrower(segs: Seq<StatusSegmentView>, i: int, j: int)
    requires
        0 <= i <= j <= segs.len(),
    ensures
        strip_columns(segs.skip(j)) <= strip_columns(segs.skip(i)),
    decreases j - i,
{
    if i < j {
        lemma_rest_is_narrower(segs, i + 1, j);
        lemma_first_adds(segs.skip(i));
        assert(segs.skip(i).skip(1) =~= segs.skip(i + 1));
    }
}

proof fn lemma_first_adds(segs: Seq<StatusSegmentView>)
    requires
        segs.len() > 0,
    ensures
        strip_columns(segs.skip(1)) <= strip_columns(segs),
    decreases segs.len(),
{
    if segs.len() > 1 {
        lemma_first_adds(segs.drop_last());
        assert(segs.skip(1).drop_last() =~= segs.drop_last().skip(1));
        assert(segs.skip(1).last() == segs.last());
    } else {
        assert(segs.skip(1).len() == 0);
    }
}

/// A larger budget drops no segment that a smaller one keeps.
proof fn lemma_cut_earlier(segs: Seq<StatusSegmentView>, i: int, b1: u16, b2: u16)
    requires
        0 <= i <= segs.len(),
        b1 <= b2,
    ensures
        cut_from(segs, i, b2) <= cut_from(segs, i, b1),
    decreases segs.len() - i,
{
    lemma_cut(segs, i, b1);
    if i + 1 < segs.len() && strip_columns(segs.skip(i)) > b2 {
        lemma_cut_earlier(segs, next_cut(segs, i), b1, b2);
    }
}

/// A lone segment is the last one, and as wide as its text.
proof fn lemma_lone(segs: Seq<StatusSegmentView>, budget: u16)
    requires
        strip_columns(survivors(segs, budget)) > budget,
    ensures
        segs.len() > 0,
        survivors(segs, budget).len() == 1,
        survivors(segs, budget)[0] == segs.last(),
        strip_columns(survivors(segs, budget)) == columns(segs.last().text),
        fitted_columns(segs, budget) == columns(
            ellipsized(CellMeasure::Bare, segs.last().text, budget as nat),
        ),
{
    lemma_cut(segs, 0, budget);
    let left = survivors(segs, budget);
    assert(left.len() > 0);
    assert(left.last() == segs.last());
    assert(strip_columns(left.drop_last()) == 0);
}

/// A cut text keeps within its budget, and a larger budget keeps no less of it.
proof fn lemma_cut_grows(text: Seq<char>, b1: u16, b2: u16)
    requires
        widths_add_up(text),
        b1 <= b2,
    ensures
        columns(ellipsized(CellMeasure::Bare, text, b1 as nat)) <= b1,
        columns(ellipsized(CellMeasure::Bare, text, b1 as nat)) <= columns(
            ellipsized(CellMeasure::Bare, text, b2 as nat),
        ),
{
    let m = CellMeasure::Bare;
    assert(text.take(0) =~= Seq::<char>::empty());
    if b1 > 0 {
        let k1 = fitting_prefix(m, text, (b1 - 1) as nat);
        let k2 = fitting_prefix(m, text, (b2 - 1) as nat);
        lemma_fitting_prefix(m, text, (b1 - 1) as nat);
        lemma_fitting_prefix(m, text, (b2 - 1) as nat);
        if k2 < k1 {
            lemma_cells_width_monotone(m, text, k2 as int + 1, k1 as int);
        }
        lemma_cells_width_monotone(m, text, k1 as int, k2 as int);
    }
}

proof fn lemma_fitted_within(segs: Seq<StatusSegmentView>, budget: u16)
    requires
        segs.len() > 0 ==> widths_add_up(segs.last().text),
    ensures
        fitted_columns(segs, budget) <= budget,
{
    if strip_columns(survivors(segs, budget)) > budget {
        lemma_lone(segs, budget);
        lemma_cut_grows(segs.last().text, budget, budget);
    }
}

proof fn lemma_fitted_grows(segs: Seq<StatusSegmentView>, b1: u16, b2: u16)
    requires
        b1 <= b2,
        segs.len() > 0 ==> widths_add_up(segs.last().text),
    ensures
        fitted_columns(segs, b1) <= fitted_columns(segs, b2),
{
    let c1 = cut_from(segs, 0, b1);
    let c2 = cut_from(segs, 0, b2);
    lemma_cut(segs, 0, b1);
    lemma_cut(segs, 0, b2);
    lemma_cut_earlier(segs, 0, b1, b2);
    lemma_rest_is_narrower(segs, c2, c1);
    lemma_fitted_within(segs, b1);
    if strip_columns(survivors(segs, b2)) > b2 {
        lemma_lone(segs, b2);
        assert(c1 == c2);
        lemma_lone(segs, b1);
        lemma_cut_grows(segs.last().text, b1, b2);
    }
}

/// A directive value that stands for a color is painted, the foreground and the
/// background each for itself; a color without such a value stays that of the
/// base. Modifiers come on top of those of the base.
pub proof fn law_directive_values_are_painted(
    segment: StatusSegmentView,
    base: Style,
    palette: Palette,
)
    ensures
        segment.fg is Some && resolved_color(segment.fg->0, palette) is Some ==> styled(
            segment,
            base,
            palette,
        ).fg == resolved_color(segment.fg->0, palette),
        segment.bg is Some && resolved_color(segment.bg->0, palette) is Some ==> styled(
            segment,
            base,
            palette,
        ).bg == resolved_color(segment.bg->0, palette),
        segment.fg is None ==> styled(segment, base, palette).fg == base.fg,
        segment.bg is None ==> styled(segment, base, palette).bg == base.bg,
        styled(segment, base, palette).add_modifier.bits == base.add_modifier.bits | (
        segment.modifiers & 0x1ff),
        styled(segment, base, palette).sub_modifier.bits == base.sub_modifier.bits & !(
        segment.modifiers & 0x1ff),
{
}

/// The sum of the columns of the first `n` texts.
pub open spec fn texts_width(fit: FittedView, n: int) -> int
    decreases n,
{
    if n <= 0 {
        0
    } else {
        texts_width(fit, n - 1) + columns(fit.text_at(n - 1))
    }
}

proof fn lemma_texts_grow(fit: FittedView, i: int, j: int)
    requires
        0 <= i <= j,
    ensures
        0 <= texts_width(fit, i) <= texts_width(fit, j),
    decreases j,
{
    if i < j {
        lemma_texts_grow(fit, i, j - 1);
    } else if i > 0 {
        lemma_texts_grow(fit, i - 1, j - 1);
    }
}

proof fn lemma_strip_x(fit: FittedView, x: u16, right: u16, n: int)
    requires
        0 <= n,
        x + texts_width(fit, n) <= right,
    ensures
        strip_x(fit, x, right, n) == x + texts_width(fit, n),
    decreases n,
{
    if n > 0 {
        lemma_texts_grow(fit, n - 1, n);
        lemma_strip_x(fit, x, right, n - 1);
    }
}

proof fn lemma_strip_columns(fit: FittedView, segs: Seq<StatusSegmentView>, n: int)
    requires
        0 <= n <= segs.len(),
        fit.truncated_first is None,
        fit.segments == segs,
    ensures
        strip_columns(segs.take(n)) == (if texts_width(fit, n) > u16::MAX {
            u16::MAX as int
        } else {
            texts_width(fit, n)
        }),
    decreases n,
{
    lemma_texts_grow(fit, 0, n);
    if n > 0 {
        lemma_strip_columns(fit, segs, n - 1);
        lemma_texts_grow(fit, 0, n - 1);
        assert(segs.take(n).drop_last() =~= segs.take(n - 1));
        assert(segs.take(n).last() == segs[n - 1]);
    }
}

/// What is drawn of a segment.
pub open spec fn is_drawn(
    step: DrawOpView,
    segment: StatusSegmentView,
    text: Seq<char>,
    at: int,
    y: u16,
    palette: Palette,
) -> bool {
    step matches DrawOpView::Text { x, y: row, width, text: shown, style } && {
        &&& x == at
        &&& row == y
        &&& width == columns(text)
        &&& shown == text
        &&& style.fg == (if segment.fg is Some && resolved_color(segment.fg->0, palette) is Some {
            resolved_color(segment.fg->0, palette)
        } else {
            Some(palette.overlay1)
        })
        &&& style.bg == (if segment.bg is Some && resolved_color(segment.bg->0, palette) is Some {
            resolved_color(segment.bg->0, palette)
        } else {
            Some(palette.panel_bg)
        })
        &&& style.add_modifier.bits == segment.modifiers & 0x1ff
    }
}

/// The strip ends at the right edge of its zone: the segments that fit are drawn
/// in order, side by side, each with its whole text and in its own colors, and
/// what no directive sets is that of the theme's base.
pub proof fn law_strip_ends_at_the_right_edge(
    snapshot: SnapshotView,
    rect: Rect,
    palette: Palette,
    i: int,
)
    requires
        rect.width > 0,
        rect.height > 0,
        rect.x + rect.width <= u16::MAX,
        min16(snapshot.status_strip_budget, rect.width) < u16::MAX,
        cut_text(
            snapshot.status_strip,
            min16(snapshot.status_strip_budget, rect.width),
        ) is None,
        0 <= i < survivors(
            snapshot.status_strip,
            min16(snapshot.status_strip_budget, rect.width),
        ).len(),
    ensures
        ({
            let fit = fitted(
                snapshot.status_strip,
                min16(snapshot.status_strip_budget, rect.width),
            );
            let steps = strip_steps(snapshot, rect, palette);
            let all = texts_width(fit, fit.segments.len() as int);
            &&& steps.len() == fit.segments.len()
            &&& all <= rect.width
            &&& is_drawn(
                steps[i],
                fit.segments[i],
                fit.segments[i].text,
                rect.x + rect.width - all + texts_width(fit, i),
                rect.y,
                palette,
            )
        }),
{
    let budget = min16(snapshot.status_strip_budget, rect.width);
    let segs = snapshot.status_strip;
    let fit = fitted(segs, budget);
    let n = fit.segments.len() as int;
    lemma_cut(segs, 0, budget);
    lemma_strip_columns(fit, fit.segments, n);
    assert(fit.segments.take(n) =~= fit.segments);
    let right = rect.right_edge();
    let x = sat_sub(right as int, fit.width as int);
    lemma_texts_grow(fit, i, i + 1);
    lemma_texts_grow(fit, i + 1, n);
    lemma_strip_x(fit, x, right, i);
    let bits = fit.segments[i].modifiers & 0x1ff;
    assert(0u16 | bits == bits) by (bit_vector);
    assert(strip_steps(snapshot, rect, palette)[i] == strip_step(
        fit,
        x,
        rect.y,
        right,
        palette,
        i,
    ));
}

/// A lone segment that is cut shows its start with an ellipsis behind it, in its
/// own colors, and ends at the right edge where its cut text keeps within the
/// zone.
pub proof fn law_cut_segment_is_drawn(snapshot: SnapshotView, rect: Rect, palette: Palette)
    requires
        rect.width > 0,
        rect.height > 0,
        rect.x + rect.width <= u16::MAX,
        cut_text(
            snapshot.status_strip,
            min16(snapshot.status_strip_budget, rect.width),
        ) is Some,
        fitted_columns(
            snapshot.status_strip,
            min16(snapshot.status_strip_budget, rect.width),
        ) <= rect.width,
    ensures
        ({
            let budget = min16(snapshot.status_strip_budget, rect.width);
            let steps = strip_steps(snapshot, rect, palette);
            let segment = snapshot.status_strip.last();
            let text = ellipsized(CellMeasure::Bare, segment.text, budget as nat);
            &&& steps.len() == 1
            &&& is_drawn(
                steps[0],
                segment,
                text,
                rect.x + rect.width - columns(text),
                rect.y,
                palette,
            )
        }),
{
    let budget = min16(snapshot.status_strip_budget, rect.width);
    lemma_lone(snapshot.status_strip, budget);
    let segment = snapshot.status_strip.last();
    let bits = segment.modifiers & 0x1ff;
    assert(0u16 | bits == bits) by (bit_vector);
}

/// No more goes than has to: where the strip from a segment on fits, that segment stays,
/// unless it only separates.
pub proof fn law_no_segment_goes_that_fits(segs: Seq<StatusSegmentView>, budget: u16, i: int)
    requires
        0 <= i < segs.len(),
        !(segs[i].separator),
        strip_columns(segs.skip(i)) <= budget,
    ensures
        cut_from(segs, 0, budget) <= i,
{
    lemma_cut_stops(segs, 0, budget, i);
}

proof fn lemma_cut_stops(segs: Seq<StatusSegmentView>, at: int, budget: u16, i: int)
    requires
        0 <= at <= i < segs.len(),
        !(segs[i].separator),
        strip_columns(segs.skip(i)) <= budget,
    ensures
        cut_from(segs, at, budget) <= i,
    decreases i - at,
{
    if at < i && strip_columns(segs.skip(at)) > budget {
        lemma_cut_stops(segs, next_cut(segs, at), budget, i);
    }
}

} // verus!
