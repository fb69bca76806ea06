//! Cells, colors, and the list of drawing steps that a frame is painted from.

use vstd::prelude::*;

use crate::text::{lemma_views_push, owned, views};
use crate::width::{columns, display_width};

verus! {

/// Bold text.
pub const BOLD: u16 = 0x0001;

/// Dim text.
pub const DIM: u16 = 0x0002;

/// Italic text.
pub const ITALIC: u16 = 0x0004;

/// Underlined text.
pub const UNDERLINED: u16 = 0x0008;

/// Reversed foreground and background.
pub const REVERSED: u16 = 0x0040;

/// Every bit that stands for a text modifier.
pub const ALL_MODIFIERS: u16 = 0x01ff;

/// A set of text modifiers, one bit each.
#[derive(Debug, Clone, Copy, PartialEq, Eq, Structural)]
pub struct Modifier {
    pub bits: u16,
}

impl Modifier {
    pub open spec fn none() -> Modifier {
        Modifier { bits: 0 }
    }

    pub open spec fn with(self, other: Modifier) -> Modifier {
        Modifier { bits: self.bits | other.bits }
    }

    pub open spec fn without(self, other: Modifier) -> Modifier {
        Modifier { bits: self.bits & !other.bits }
    }

    pub open spec fn known(bits: u16) -> Modifier {
        Modifier { bits: bits & ALL_MODIFIERS }
    }

    pub fn empty() -> (r: Modifier)
        ensures
            r == Modifier::none(),
    {
        Modifier { bits: 0 }
    }

    /// The modifiers of either set.
    pub fn union(self, other: Modifier) -> (r: Modifier)
        ensures
            r == self.with(other),
    {
        Modifier { bits: self.bits | other.bits }
    }

    /// The modifiers that `other` lacks.
    pub fn difference(self, other: Modifier) -> (r: Modifier)
        ensures
            r == self.without(other),
    {
        Modifier { bits: self.bits & !other.bits }
    }

    /// Whether every modifier of `other` is set.
    pub fn contains(self, other: Modifier) -> (r: bool)
        ensures
            r == (self.bits & other.bits == other.bits),
    {
        self.bits & other.bits == other.bits
    }

    /// The modifiers among `bits`; other bits are dropped.
    pub fn from_bits_truncate(bits: u16) -> (r: Modifier)
        ensures
            r == Modifier::known(bits),
    {
        Modifier { bits: bits & ALL_MODIFIERS }
    }
}

/// A terminal color.
#[derive(Debug, Clone, Copy, PartialEq, Eq, Structural)]
pub enum Color {
    Reset,
    Black,
    Red,
    Green,
    Yellow,
    Blue,
    Magenta,
    Cyan,
    Gray,
    DarkGray,
    LightRed,
    LightGreen,
    LightYellow,
    LightBlue,
    LightMagenta,
    LightCyan,
    White,
    Rgb(u8, u8, u8),
    Indexed(u8),
}

/// How a cell looks: colors where set, modifiers to add and to remove.
#[derive(Debug, Clone, Copy, PartialEq, Eq)]
pub struct Style {
    pub fg: Option<Color>,
    pub bg: Option<Color>,
    pub add_modifier: Modifier,
    pub sub_modifier: Modifier,
}

impl Style {
    pub open spec fn plain() -> Style {
        Style {
            fg: None,
            bg: None,
            add_modifier: Modifier::none(),
            sub_modifier: Modifier::none(),
        }
    }

    pub open spec fn in_color(self, fg: Color) -> Style {
        Style { fg: Some(fg), ..self }
    }

    pub open spec fn over(self, bg: Color) -> Style {
        Style { bg: Some(bg), ..self }
    }

    pub open spec fn adding(self, m: Modifier) -> Style {
        Style {
            sub_modifier: self.sub_modifier.without(m),
            add_modifier: self.add_modifier.with(m),
            ..self
        }
    }

    pub open spec fn removing(self, m: Modifier) -> Style {
        Style {
            add_modifier: self.add_modifier.without(m),
            sub_modifier: self.sub_modifier.with(m),
            ..self
        }
    }

    /// A style that changes nothing.
    pub fn new() -> (r: Style)
        ensures
            r == Style::plain(),
    {
        Style { fg: None, bg: None, add_modifier: Modifier::empty(), sub_modifier: Modifier::empty() }
    }

    pub fn fg(self, color: Color) -> (r: Style)
        ensures
            r == self.in_color(color),
    {
        Style { fg: Some(color), ..self }
    }

    pub fn bg(self, color: Color) -> (r: Style)
        ensures
            r == self.over(color),
    {
        Style { bg: Some(color), ..self }
    }

    pub fn add_modifier(self, m: Modifier) -> (r: Style)
        ensures
            r == self.adding(m),
    {
        Style {
            sub_modifier: self.sub_modifier.difference(m),
            add_modifier: self.add_modifier.union(m),
            ..self
        }
    }

    pub fn remove_modifier(self, m: Modifier) -> (r: Style)
        ensures
            r == self.removing(m),
    {
        Style {
            add_modifier: self.add_modifier.difference(m),
            sub_modifier: self.sub_modifier.union(m),
            ..self
        }
    }
}

/// The theme of one client.
#[derive(Debug, Clone, Copy, PartialEq, Eq)]
pub struct Palette {
    pub accent: Color,
    pub panel_bg: Color,
    pub surface0: Color,
    pub surface1: Color,
    pub surface_dim: Color,
    pub overlay0: Color,
    pub overlay1: Color,
    pub text: Color,
    pub subtext0: Color,
    pub mauve: Color,
    pub teal: Color,
    pub peach: Color,
    /// Foreground that stays readable on the accent color.
    pub panel_contrast_fg: Color,
}

/// A rectangle of cells.
#[derive(Debug, Clone, Copy, PartialEq, Eq, Structural)]
pub struct Rect {
    pub x: u16,
    pub y: u16,
    pub width: u16,
    pub height: u16,
}

impl View for Rect {
    type V = Rect;

    open spec fn view(&self) -> Rect {
        *self
    }
}

/// `a + b`, as far as sixteen bits count.
pub open spec fn sat_add(a: int, b: int) -> u16 {
    if a + b > u16::MAX {
        u16::MAX
    } else {
        (a + b) as u16
    }
}

/// `a - b`, or zero.
pub open spec fn sat_sub(a: int, b: int) -> u16 {
    if a - b < 0 {
        0
    } else {
        (a - b) as u16
    }
}

/// `a * b`, as far as sixteen bits count.
pub open spec fn sat_mul(a: int, b: int) -> u16 {
    if a * b > u16::MAX {
        u16::MAX
    } else {
        (a * b) as u16
    }
}

/// The smaller of two columns.
pub open spec fn min16(a: u16, b: u16) -> u16 {
    if b < a {
        b
    } else {
        a
    }
}

/// The larger of two columns.
pub open spec fn max16(a: u16, b: u16) -> u16 {
    if a < b {
        b
    } else {
        a
    }
}

pub fn smaller(a: u16, b: u16) -> (r: u16)
    ensures
        r == min16(a, b),
{
    if b < a {
        b
    } else {
        a
    }
}

/// The product of two lengths, as far as sixteen bits count.
pub fn product(a: u16, b: u16) -> (r: u16)
    ensures
        r == sat_mul(a as int, b as int),
{
    assert(0 <= a * b <= 0xffff * 0xffff) by (nonlinear_arith)
        requires
            0 <= a <= 0xffff,
            0 <= b <= 0xffff,
    ;
    let wide: u32 = a as u32 * b as u32;
    if wide > u16::MAX as u32 {
        u16::MAX
    } else {
        wide as u16
    }
}

pub fn larger(a: u16, b: u16) -> (r: u16)
    ensures
        r == max16(a, b),
{
    if a < b {
        b
    } else {
        a
    }
}

impl Rect {
    /// A rectangle whose right and bottom edges stay countable.
    pub open spec fn at(x: u16, y: u16, width: u16, height: u16) -> Rect {
        Rect {
            x,
            y,
            width: min16(width, (u16::MAX - x) as u16),
            height: min16(height, (u16::MAX - y) as u16),
        }
    }

    pub open spec fn zero() -> Rect {
        Rect { x: 0, y: 0, width: 0, height: 0 }
    }

    pub open spec fn right_edge(self) -> u16 {
        sat_add(self.x as int, self.width as int)
    }

    pub open spec fn bottom_edge(self) -> u16 {
        sat_add(self.y as int, self.height as int)
    }

    pub fn new(x: u16, y: u16, width: u16, height: u16) -> (r: Rect)
        ensures
            r == Rect::at(x, y, width, height),
    {
        Rect { x, y, width: smaller(width, u16::MAX - x), height: smaller(height, u16::MAX - y) }
    }

    pub fn empty() -> (r: Rect)
        ensures
            r == Rect::zero(),
    {
        Rect { x: 0, y: 0, width: 0, height: 0 }
    }

    /// The first column past the rectangle.
    pub fn right(self) -> (r: u16)
        ensures
            r == self.right_edge(),
    {
        self.x.saturating_add(self.width)
    }

    /// The first row past the rectangle.
    pub fn bottom(self) -> (r: u16)
        ensures
            r == self.bottom_edge(),
    {
        self.y.saturating_add(self.height)
    }
}

/// One drawing step.
#[derive(Debug, Clone, PartialEq, Eq)]
pub enum DrawOp {
    /// Style every cell of an area, keeping its symbols.
    Fill { area: Rect, style: Style },
    /// Write a text from `(x, y)` into at most `width` columns.
    Text { x: u16, y: u16, width: u16, text: String, style: Style },
    /// Replace the symbol of one cell.
    Symbol { x: u16, y: u16, symbol: String, style: Style },
    /// Blank every cell of an area.
    Clear { area: Rect },
    /// Blank an area and draw a box around it.
    Panel { area: Rect, border: Color, background: Color, rounded: bool },
}

/// One drawing step, with its text as characters.
pub enum DrawOpView {
    Fill { area: Rect, style: Style },
    Text { x: u16, y: u16, width: u16, text: Seq<char>, style: Style },
    Symbol { x: u16, y: u16, symbol: Seq<char>, style: Style },
    Clear { area: Rect },
    Panel { area: Rect, border: Color, background: Color, rounded: bool },
}

impl View for DrawOp {
    type V = DrawOpView;

    open spec fn view(&self) -> DrawOpView {
        match *self {
            DrawOp::Fill { area, style } => DrawOpView::Fill { area, style },
            DrawOp::Text { x, y, width, text, style } => DrawOpView::Text {
                x,
                y,
                width,
                text: text@,
                style,
            },
            DrawOp::Symbol { x, y, symbol, style } => DrawOpView::Symbol {
                x,
                y,
                symbol: symbol@,
                style,
            },
            DrawOp::Clear { area } => DrawOpView::Clear { area },
            DrawOp::Panel { area, border, background, rounded } => DrawOpView::Panel {
                area,
                border,
                background,
                rounded,
            },
        }
    }
}

/// What a frame is painted from: the area it covers, and the steps in order.
#[derive(Debug)]
pub struct Canvas {
    pub area: Rect,
    pub ops: Vec<DrawOp>,
}

impl View for Canvas {
    type V = Seq<DrawOpView>;

    open spec fn view(&self) -> Seq<DrawOpView> {
        views(self.ops@)
    }
}

/// Columns that a text takes between `x` and the column `right`.
pub open spec fn clipped_columns(x: u16, right: u16, text: Seq<char>) -> u16 {
    min16(columns(text), sat_sub(right as int, x as int))
}

/// The area inside the border of a box.
pub open spec fn panel_inner(area: Rect) -> Option<Rect> {
    if area.width < 2 || area.height < 2 {
        None
    } else {
        Some(
            Rect::at(
                sat_add(area.x as int, 1),
                sat_add(area.y as int, 1),
                (area.width - 2) as u16,
                (area.height - 2) as u16,
            ),
        )
    }
}

/// A box of at most the given size in the middle of an area; `None` where the
/// area has no cells.
pub open spec fn centered(area: Rect, width: u16, height: u16) -> Option<Rect> {
    if area.width == 0 || area.height == 0 {
        None
    } else {
        let w = min16(width, area.width);
        let h = min16(height, area.height);
        Some(
            Rect::at(
                sat_add(area.x as int, (area.width - w) / 2),
                sat_add(area.y as int, (area.height - h) / 2),
                w,
                h,
            ),
        )
    }
}

/// A box of at most the given size in the middle of an area.
pub fn popup(area: Rect, width: u16, height: u16) -> (r: Option<Rect>)
    ensures
        r == centered(area, width, height),
{
    if area.width == 0 || area.height == 0 {
        return None;
    }
    let w: u16 = smaller(width, area.width);
    let h: u16 = smaller(height, area.height);
    Some(
        Rect::new(
            area.x.saturating_add((area.width - w) / 2),
            area.y.saturating_add((area.height - h) / 2),
            w,
            h,
        ),
    )
}

impl Canvas {
    pub fn new(area: Rect) -> (r: Canvas)
        ensures
            r.area == area,
            r@ == Seq::<DrawOpView>::empty(),
    {
        let r = Canvas { area, ops: Vec::new() };
        assert(r@ =~= Seq::<DrawOpView>::empty());
        r
    }

    fn push(&mut self, op: DrawOp)
        ensures
            final(self).area == old(self).area,
            final(self)@ == old(self)@.push(op@),
    {
        proof {
            lemma_views_push(self.ops@, op);
        }
        self.ops.push(op);
    }

    /// Style an area.
    pub fn set_style(&mut self, area: Rect, style: Style)
        ensures
            final(self).area == old(self).area,
            final(self)@ == old(self)@.push(DrawOpView::Fill { area, style }),
    {
        self.push(DrawOp::Fill { area, style });
    }

    /// Write a text into at most `width` columns.
    pub fn put_text(&mut self, x: u16, y: u16, width: u16, text: &str, style: Style)
        ensures
            final(self).area == old(self).area,
            final(self)@ == old(self)@.push(DrawOpView::Text { x, y, width, text: text@, style }),
    {
        self.push(DrawOp::Text { x, y, width, text: owned(text), style });
    }

    /// Replace the symbol of one cell.
    pub fn set_symbol(&mut self, x: u16, y: u16, symbol: &str, style: Style)
        ensures
            final(self).area == old(self).area,
            final(self)@ == old(self)@.push(DrawOpView::Symbol { x, y, symbol: symbol@, style }),
    {
        self.push(DrawOp::Symbol { x, y, symbol: owned(symbol), style });
    }

    /// Blank an area.
    pub fn clear(&mut self, area: Rect)
        ensures
            final(self).area == old(self).area,
            final(self)@ == old(self)@.push(DrawOpView::Clear { area }),
    {
        self.push(DrawOp::Clear { area });
    }

    /// Draw a box and return the area inside it; `None` where its border alone
    /// does not fit.
    pub fn panel(&mut self, area: Rect, border: Color, background: Color, rounded: bool) -> (r:
        Option<Rect>)
        ensures
            final(self).area == old(self).area,
            r == panel_inner(area),
            r is None ==> final(self)@ == old(self)@,
            r is Some ==> final(self)@ == old(self)@.push(
                DrawOpView::Panel { area, border, background, rounded },
            ),
    {
        if area.width < 2 || area.height < 2 {
            return None;
        }
        self.push(DrawOp::Panel { area, border, background, rounded });
        Some(
            Rect::new(
                area.x.saturating_add(1),
                area.y.saturating_add(1),
                area.width - 2,
                area.height - 2,
            ),
        )
    }

    /// Write a text left of the column `right` and return the column after it.
    pub fn put_segment(&mut self, x: u16, y: u16, right: u16, text: &str, style: Style) -> (next:
        u16)
        ensures
            final(self).area == old(self).area,
            final(self)@ == old(self)@.push(
                DrawOpView::Text {
                    x,
                    y,
                    width: clipped_columns(x, right, text@),
                    text: text@,
                    style,
                },
            ),
            next == sat_add(x as int, clipped_columns(x, right, text@) as int),
    {
        let width = smaller(display_width(text), right.saturating_sub(x));
        self.put_text(x, y, width, text, style);
        x.saturating_add(width)
    }

    /// Write a text so that it ends at the right edge of `area`.
    pub fn put_right_text(&mut self, area: Rect, y: u16, text: &str, style: Style)
        ensures
            final(self).area == old(self).area,
            final(self)@ == old(self)@.push(
                DrawOpView::Text {
                    x: sat_sub(
                        area.right_edge() as int,
                        min16(columns(text@), area.width) as int,
                    ),
                    y,
                    width: min16(columns(text@), area.width),
                    text: text@,
                    style,
                },
            ),
    {
        let width = smaller(display_width(text), area.width);
        self.put_text(area.right().saturating_sub(width), y, width, text, style);
    }
}

// --- laws ---------------------------------------------------------------------

/// Setting a color sets that color alone. Adding modifiers turns them on and those
/// only, removing them turns them off and those only; what a client cannot know is
/// dropped.
pub proof fn law_styles_change_what_they_say(style: Style, color: Color, m: Modifier)
    ensures
        style.in_color(color) == (Style { fg: Some(color), ..style }),
        style.over(color) == (Style { bg: Some(color), ..style }),
        ({
            let on = style.adding(m);
            let off = style.removing(m);
            &&& on.fg == style.fg && on.bg == style.bg && off.fg == style.fg && off.bg == style.bg
            &&& on.add_modifier.bits & m.bits == m.bits
            &&& on.add_modifier.bits & style.add_modifier.bits == style.add_modifier.bits
            &&& on.add_modifier.bits & !m.bits & !style.add_modifier.bits == 0
            &&& on.sub_modifier.bits & m.bits == 0
            &&& off.add_modifier.bits & m.bits == 0
            &&& off.add_modifier.bits & !m.bits == style.add_modifier.bits & !m.bits
            &&& off.sub_modifier.bits & m.bits == m.bits
        }),
        Style::plain().fg is None && Style::plain().bg is None,
        Style::plain().add_modifier.bits == 0 && Style::plain().sub_modifier.bits == 0,
        m.bits <= 0x1ff ==> Modifier::known(m.bits) == m,
        Modifier::known(m.bits).bits <= 0x1ff,
{
    let a = style.add_modifier.bits;
    let s = style.sub_modifier.bits;
    let b = m.bits;
    assert((a | b) & b == b && (a | b) & a == a && (a | b) & !b & !a == 0) by (bit_vector);
    assert((s & !b) & b == 0 && (a & !b) & b == 0) by (bit_vector);
    assert((a & !b) & !b == a & !b && (s | b) & b == b) by (bit_vector);
    assert(b <= 0x1ffu16 ==> b & 0x1ffu16 == b) by (bit_vector);
    assert(b & 0x1ffu16 <= 0x1ffu16) by (bit_vector);
}

/// A rectangle lies where it is put, as large as it is asked to be where the edges
/// can be counted. What is inside a box is one cell smaller on each side.
pub proof fn law_rectangles_lie_where_they_are_put(x: u16, y: u16, width: u16, height: u16)
    requires
        x + width <= 0xffff,
        y + height <= 0xffff,
    ensures
        ({
            let area = Rect::at(x, y, width, height);
            &&& area == (Rect { x, y, width, height })
            &&& area.right_edge() == x + width && area.bottom_edge() == y + height
            &&& panel_inner(area) is Some <==> width >= 2 && height >= 2
            &&& panel_inner(area) matches Some(inner) ==> inner.x == x + 1 && inner.y == y + 1
                && inner.right_edge() == x + width - 1 && inner.bottom_edge() == y + height - 1
        }),
{
}

/// A centered box has the size that is asked for, or that of the area where that
/// is smaller, and the margins on its two sides differ by one cell at most.
pub proof fn law_centered_box_is_in_the_middle(area: Rect, width: u16, height: u16)
    requires
        area.width > 0,
        area.height > 0,
        area.x + area.width <= 0xffff,
        area.y + area.height <= 0xffff,
    ensures
        centered(area, width, height) matches Some(b) && {
            let left = b.x - area.x;
            let right = area.x + area.width - (b.x + b.width);
            let above = b.y - area.y;
            let below = area.y + area.height - (b.y + b.height);
            &&& width <= area.width ==> b.width == width
            &&& width > area.width ==> b.width == area.width
            &&& height <= area.height ==> b.height == height
            &&& height > area.height ==> b.height == area.height
            &&& 0 <= left <= right <= left + 1
            &&& 0 <= above <= below <= above + 1
        },
{
}

/// A text takes its own columns where they fit left of the edge, and what is left
/// before the edge where they do not.
pub proof fn law_text_stops_at_the_edge(x: u16, right: u16, text: Seq<char>)
    ensures
        x + columns(text) <= right ==> clipped_columns(x, right, text) == columns(text),
        x <= right < x + columns(text) ==> clipped_columns(x, right, text) == right - x,
        x > right ==> clipped_columns(x, right, text) == 0,
{
}

} // verus!
