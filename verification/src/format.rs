//! The `status_right` format string: literal text, `%` clock runs, `#(command)`
//! output, `#{slot:NAME}` push slots, and `#[...]` style directives.

use vstd::prelude::*;

use crate::canvas::{Modifier, BOLD, DIM, ITALIC, REVERSED, UNDERLINED};
use crate::text::{
    chars_of, copy_opt, lemma_views_empty, lemma_views_push, lower, lowered, opt_text, push_chars,
    same_text, string_of, to_lower, trim_bounds, trimmed, views, whitespace,
};

verus! {

/// A `#[...]` style directive: what it sets for the segments that follow it.
/// Color values stay unparsed, so each client resolves them in its own theme.
#[derive(Debug, PartialEq, Eq)]
pub struct StyleSpec {
    /// Raw `fg=` value.
    pub fg: Option<String>,
    /// Raw `bg=` value.
    pub bg: Option<String>,
    pub add_modifier: Modifier,
    /// `default` or `none`: go back to the base style first.
    pub reset: bool,
}

/// A style directive, with its values as characters.
pub struct StyleSpecView {
    pub fg: Option<Seq<char>>,
    pub bg: Option<Seq<char>>,
    pub add_modifier: Modifier,
    pub reset: bool,
}

impl View for StyleSpec {
    type V = StyleSpecView;

    open spec fn view(&self) -> StyleSpecView {
        StyleSpecView {
            fg: opt_text(self.fg),
            bg: opt_text(self.bg),
            add_modifier: self.add_modifier,
            reset: self.reset,
        }
    }
}

impl StyleSpecView {
    /// The directive that sets nothing.
    pub open spec fn base() -> StyleSpecView {
        StyleSpecView { fg: None, bg: None, add_modifier: Modifier::none(), reset: false }
    }

    /// The style in force after this directive, where `current` was before it.
    pub open spec fn folded_onto(self, current: StyleSpecView) -> StyleSpecView {
        let start = if self.reset {
            StyleSpecView::base()
        } else {
            current
        };
        StyleSpecView {
            fg: if self.fg is Some {
                self.fg
            } else {
                start.fg
            },
            bg: if self.bg is Some {
                self.bg
            } else {
                start.bg
            },
            add_modifier: start.add_modifier.with(self.add_modifier),
            reset: start.reset,
        }
    }
}

impl Clone for StyleSpec {
    fn clone(&self) -> (r: StyleSpec)
        ensures
            r == *self,
    {
        StyleSpec {
            fg: copy_opt(&self.fg),
            bg: copy_opt(&self.bg),
            add_modifier: self.add_modifier,
            reset: self.reset,
        }
    }
}

impl Default for StyleSpec {
    fn default() -> (r: StyleSpec)
        ensures
            r@ == StyleSpecView::base(),
    {
        StyleSpec { fg: None, bg: None, add_modifier: Modifier::empty(), reset: false }
    }
}

impl StyleSpec {
    /// Fold this directive onto the running style: a reset goes back to the
    /// base, then colors replace and modifiers accumulate.
    pub fn fold_onto(&self, current: &mut StyleSpec)
        ensures
            final(current)@ == self@.folded_onto(old(current)@),
    {
        if self.reset {
            *current = StyleSpec::default();
        }
        if self.fg.is_some() {
            current.fg = copy_opt(&self.fg);
        }
        if self.bg.is_some() {
            current.bg = copy_opt(&self.bg);
        }
        current.add_modifier = current.add_modifier.union(self.add_modifier);
    }
}

// --- style directives -----------------------------------------------------

/// The attributes of a directive body from `i` on, where `buf` holds the part
/// of the current attribute before `i` and `depth` parentheses are open. A
/// comma separates attributes where no parenthesis is open.
pub open spec fn attrs_from(s: Seq<char>, i: int, depth: nat, buf: Seq<char>) -> Seq<Seq<char>>
    decreases s.len() - i,
{
    if i < 0 || i >= s.len() {
        seq![buf]
    } else if s[i] == ',' && depth == 0 {
        seq![buf] + attrs_from(s, i + 1, 0, Seq::empty())
    } else {
        let inside: nat = if s[i] == '(' {
            depth + 1
        } else if s[i] == ')' && depth > 0 {
            (depth - 1) as nat
        } else {
            depth
        };
        attrs_from(s, i + 1, inside, buf.push(s[i]))
    }
}

/// The comma-separated attributes of a directive body.
pub open spec fn style_attrs(s: Seq<char>) -> Seq<Seq<char>> {
    attrs_from(s, 0, 0, Seq::empty())
}

/// Split a `#[...]` body on attribute commas, but not on commas inside a
/// parenthesized color value such as `rgb(1,2,3)`.
pub fn split_style_attrs(inner: &str) -> (r: Vec<String>)
    ensures
        views(r@) == style_attrs(inner@),
{
    let chars = chars_of(inner);
    let mut tokens: Vec<String> = Vec::new();
    let mut buf = String::new();
    let mut depth: usize = 0;
    let mut i: usize = 0;
    proof {
        lemma_views_empty::<String>();
        assert(views(tokens@) + style_attrs(inner@) =~= style_attrs(inner@));
    }
    while i < chars.len()
        invariant
            chars@ == inner@,
            i <= chars@.len(),
            depth <= i,
            views(tokens@) + attrs_from(inner@, i as int, depth as nat, buf@) == style_attrs(inner@),
        decreases chars@.len() - i,
    {
        let c = chars[i];
        if c == ',' && depth == 0 {
            let ghost done = tokens@;
            let ghost attr = buf;
            tokens.push(buf);
            buf = String::new();
            proof {
                lemma_views_push(done, attr);
                assert(views(done) + (seq![attr@] + attrs_from(
                    inner@,
                    i + 1,
                    0,
                    Seq::empty(),
                )) =~= views(done).push(attr@) + attrs_from(inner@, i + 1, 0, Seq::empty()));
            }
        } else {
            if c == '(' {
                depth = depth + 1;
            } else if c == ')' && depth > 0 {
                depth = depth - 1;
            }
            buf.push(c);
        }
        i = i + 1;
    }
    proof {
        lemma_views_push(tokens@, buf);
        assert(views(tokens@) + seq![buf@] =~= views(tokens@).push(buf@));
    }
    tokens.push(buf);
    tokens
}

/// Whether `s` starts with `prefix`.
pub open spec fn has_prefix(s: Seq<char>, prefix: Seq<char>) -> bool {
    prefix.len() <= s.len() && s.take(prefix.len() as int) == prefix
}

/// Whether `s` starts with `prefix`.
pub fn starts_with(s: &[char], prefix: &str) -> (r: bool)
    ensures
        r == has_prefix(s@, prefix@),
{
    let p = chars_of(prefix);
    if p.len() > s.len() {
        return false;
    }
    let mut i: usize = 0;
    while i < p.len()
        invariant
            p@ == prefix@,
            i <= p@.len() <= s@.len(),
            forall|k: int| 0 <= k < i ==> s@[k] == p@[k],
        decreases p@.len() - i,
    {
        if s[i] != p[i] {
            assert(s@.take(p@.len() as int)[i as int] != p@[i as int]);
            return false;
        }
        i = i + 1;
    }
    assert(s@.take(p@.len() as int) =~= p@);
    true
}

/// The directive with one more attribute: keywords and modifiers by name,
/// `fg=`/`bg=` values verbatim in small letters, anything else ignored.
pub open spec fn with_attr(spec: StyleSpecView, attr: Seq<char>) -> StyleSpecView {
    let t = lowered(trimmed(attr));
    if t == "default"@ || t == "none"@ {
        StyleSpecView { reset: true, ..spec }
    } else if t == "bold"@ {
        StyleSpecView { add_modifier: spec.add_modifier.with(Modifier { bits: BOLD }), ..spec }
    } else if t == "dim"@ {
        StyleSpecView { add_modifier: spec.add_modifier.with(Modifier { bits: DIM }), ..spec }
    } else if t == "italic"@ {
        StyleSpecView { add_modifier: spec.add_modifier.with(Modifier { bits: ITALIC }), ..spec }
    } else if t == "underline"@ {
        StyleSpecView {
            add_modifier: spec.add_modifier.with(Modifier { bits: UNDERLINED }),
            ..spec
        }
    } else if t == "reverse"@ {
        StyleSpecView { add_modifier: spec.add_modifier.with(Modifier { bits: REVERSED }), ..spec }
    } else if has_prefix(t, "fg="@) {
        StyleSpecView { fg: Some(t.skip(3)), ..spec }
    } else if has_prefix(t, "bg="@) {
        StyleSpecView { bg: Some(t.skip(3)), ..spec }
    } else {
        spec
    }
}

/// The directive that a list of attributes makes, read left to right.
pub open spec fn with_attrs(attrs: Seq<Seq<char>>) -> StyleSpecView
    decreases attrs.len(),
{
    if attrs.len() == 0 {
        StyleSpecView::base()
    } else {
        with_attr(with_attrs(attrs.drop_last()), attrs.last())
    }
}

/// The directive that a `#[...]` body stands for.
pub open spec fn style_spec(inner: Seq<char>) -> StyleSpecView {
    with_attrs(style_attrs(inner))
}

fn add_attr(spec: &mut StyleSpec, attr: &str)
    ensures
        final(spec)@ == with_attr(old(spec)@, attr@),
{
    let chars = chars_of(attr);
    let bounds = trim_bounds(chars.as_slice());
    let mut low: Vec<char> = Vec::new();
    let mut i: usize = bounds.0;
    while i < bounds.1
        invariant
            bounds.0 <= i <= bounds.1 <= chars@.len(),
            low@.len() == i - bounds.0,
            forall|k: int| 0 <= k < low@.len() ==> low@[k] == lower(chars@[k + bounds.0]),
        decreases bounds.1 - i,
    {
        low.push(to_lower(chars[i]));
        i = i + 1;
    }
    assert(low@ =~= lowered(trimmed(attr@)));
    let token = string_of(low.as_slice(), 0, low.len());
    assert(token@ =~= low@);
    proof {
        reveal_strlit("fg=");
        reveal_strlit("bg=");
    }
    if same_text(token.as_str(), "default") || same_text(token.as_str(), "none") {
        spec.reset = true;
    } else if same_text(token.as_str(), "bold") {
        spec.add_modifier = spec.add_modifier.union(Modifier { bits: BOLD });
    } else if same_text(token.as_str(), "dim") {
        spec.add_modifier = spec.add_modifier.union(Modifier { bits: DIM });
    } else if same_text(token.as_str(), "italic") {
        spec.add_modifier = spec.add_modifier.union(Modifier { bits: ITALIC });
    } else if same_text(token.as_str(), "underline") {
        spec.add_modifier = spec.add_modifier.union(Modifier { bits: UNDERLINED });
    } else if same_text(token.as_str(), "reverse") {
        spec.add_modifier = spec.add_modifier.union(Modifier { bits: REVERSED });
    } else if starts_with(low.as_slice(), "fg=") {
        let value = string_of(low.as_slice(), 3, low.len());
        assert(value@ =~= low@.skip(3));
        spec.fg = Some(value);
    } else if starts_with(low.as_slice(), "bg=") {
        let value = string_of(low.as_slice(), 3, low.len());
        assert(value@ =~= low@.skip(3));
        spec.bg = Some(value);
    }
}

/// Parse the inside of a `#[...]` directive. Unknown attributes are ignored, so
/// a typo degrades gracefully.
pub fn parse_style_spec(inner: &str) -> (r: StyleSpec)
    ensures
        r@ == style_spec(inner@),
{
    let tokens = split_style_attrs(inner);
    let mut spec = StyleSpec::default();
    let ghost attrs = views(tokens@);
    assert(attrs.take(0) =~= Seq::<Seq<char>>::empty());
    let mut i: usize = 0;
    while i < tokens.len()
        invariant
            attrs == views(tokens@),
            i <= tokens@.len(),
            spec@ == with_attrs(attrs.take(i as int)),
        decreases tokens@.len() - i,
    {
        add_attr(&mut spec, tokens[i].as_str());
        i = i + 1;
        assert(attrs.take(i as int).drop_last() =~= attrs.take(i - 1));
        assert(attrs.take(i as int).last() == tokens@[i - 1]@);
    }
    assert(attrs.take(attrs.len() as int) =~= attrs);
    spec
}

// --- segments -------------------------------------------------------------

/// One parsed piece of a format string.
#[derive(Debug, Clone, PartialEq, Eq)]
pub enum Segment {
    /// Literal text, which also separates content.
    Literal(String),
    /// A run of `%` clock fields, such as `%H:%M`.
    Clock(String),
    /// A `#(command)` whose output becomes the text.
    Command(String),
    /// A `#{slot:NAME}` whose text is the latest value pushed for `NAME`.
    Slot(String),
    /// A `#[...]` directive; no text and no width.
    Style(StyleSpec),
}

/// A parsed piece, with its text as characters.
pub enum SegmentView {
    Literal(Seq<char>),
    Clock(Seq<char>),
    Command(Seq<char>),
    Slot(Seq<char>),
    Style(StyleSpecView),
}

impl View for Segment {
    type V = SegmentView;

    open spec fn view(&self) -> SegmentView {
        match *self {
            Segment::Literal(text) => SegmentView::Literal(text@),
            Segment::Clock(text) => SegmentView::Clock(text@),
            Segment::Command(text) => SegmentView::Command(text@),
            Segment::Slot(text) => SegmentView::Slot(text@),
            Segment::Style(spec) => SegmentView::Style(spec@),
        }
    }
}

/// Which tokens a format string knows.
#[derive(Debug, Clone, Copy, PartialEq, Eq, Structural)]
pub enum Syntax {
    /// Clock runs and commands.
    Basic,
    /// Slots and style directives as well.
    Extended,
}

/// The letters that name a clock field.
pub open spec fn clock_specifier(c: char) -> bool {
    c == 'H' || c == 'M' || c == 'S' || c == 'd' || c == 'b' || c == 'Y'
}

/// The characters that may join two clock fields into one run.
pub open spec fn clock_connector(c: char) -> bool {
    c == ':' || c == ' ' || c == '-' || c == '/' || c == '.' || c == ','
}

pub fn is_clock_specifier(c: char) -> (r: bool)
    ensures
        r == clock_specifier(c),
{
    c == 'H' || c == 'M' || c == 'S' || c == 'd' || c == 'b' || c == 'Y'
}

pub fn is_clock_connector(c: char) -> (r: bool)
    ensures
        r == clock_connector(c),
{
    c == ':' || c == ' ' || c == '-' || c == '/' || c == '.' || c == ','
}

/// A clock field starts at `i`.
pub open spec fn clock_field_at(s: Seq<char>, i: int) -> bool {
    0 <= i && i + 1 < s.len() && s[i] == '%' && clock_specifier(s[i + 1])
}

/// The first place from `i` on that holds no connector.
pub open spec fn connectors_end(s: Seq<char>, i: int) -> int
    decreases s.len() - i,
{
    if 0 <= i < s.len() && clock_connector(s[i]) {
        connectors_end(s, i + 1)
    } else {
        i
    }
}

pub proof fn lemma_connectors_end(s: Seq<char>, i: int)
    requires
        0 <= i <= s.len(),
    ensures
        i <= connectors_end(s, i) <= s.len(),
    decreases s.len() - i,
{
    if i < s.len() && clock_connector(s[i]) {
        lemma_connectors_end(s, i + 1);
    }
}

/// Where a clock run ends that has a field ending at `i`: connectors belong to
/// it only when another field follows them.
pub open spec fn clock_run_end(s: Seq<char>, i: int) -> int
    decreases s.len() - i,
{
    let j = connectors_end(s, i);
    if 0 <= i <= s.len() && clock_field_at(s, j) {
        proof {
            lemma_connectors_end(s, i);
        }
        clock_run_end(s, j + 2)
    } else {
        i
    }
}

proof fn lemma_clock_run_end(s: Seq<char>, i: int)
    requires
        0 <= i <= s.len(),
    ensures
        i <= clock_run_end(s, i) <= s.len(),
    decreases s.len() - i,
{
    let j = connectors_end(s, i);
    lemma_connectors_end(s, i);
    if clock_field_at(s, j) {
        lemma_clock_run_end(s, j + 2);
    }
}

/// Consume a maximal clock run starting at `start`, and return it with the
/// place after it. Trailing connectors stay outside.
pub fn consume_clock_run(chars: &[char], start: usize) -> (r: (String, usize))
    requires
        clock_field_at(chars@, start as int),
    ensures
        r.1 == clock_run_end(chars@, start + 2),
        start + 2 <= r.1 <= chars@.len(),
        r.0@ == chars@.subrange(start as int, r.1 as int),
{
    let total = chars.len();
    let mut buf = String::new();
    buf.push('%');
    buf.push(chars[start + 1]);
    let mut i: usize = start + 2;
    assert(buf@ =~= chars@.subrange(start as int, i as int));
    proof {
        lemma_clock_run_end(chars@, i as int);
    }
    loop
        invariant
            total == chars@.len(),
            start + 2 <= i <= chars@.len(),
            buf@ == chars@.subrange(start as int, i as int),
            clock_run_end(chars@, i as int) == clock_run_end(chars@, start + 2),
        ensures
            i == clock_run_end(chars@, start + 2),
            start + 2 <= i <= chars@.len(),
            buf@ == chars@.subrange(start as int, i as int),
        decreases chars@.len() - i,
    {
        let mut j: usize = i;
        while j < total && is_clock_connector(chars[j])
            invariant
                total == chars@.len(),
                i <= j <= chars@.len(),
                connectors_end(chars@, i as int) == connectors_end(chars@, j as int),
            decreases chars@.len() - j,
        {
            j = j + 1;
        }
        if j < total && chars[j] == '%' && j + 1 < total && is_clock_specifier(
            chars[j + 1],
        ) {
            push_chars(&mut buf, chars, i, j);
            buf.push('%');
            buf.push(chars[j + 1]);
            assert(buf@ =~= chars@.subrange(start as int, j + 2));
            i = j + 2;
        } else {
            break;
        }
    }
    (buf, i)
}

/// The first place from `i` on that holds `c`, or the end of `s`.
pub open spec fn find_from(s: Seq<char>, c: char, i: int) -> int
    decreases s.len() - i,
{
    if i < 0 || i >= s.len() {
        s.len() as int
    } else if s[i] == c {
        i
    } else {
        find_from(s, c, i + 1)
    }
}

proof fn lemma_find_from(s: Seq<char>, c: char, i: int)
    requires
        0 <= i,
    ensures
        find_from(s, c, i) <= s.len(),
        find_from(s, c, i) < s.len() ==> i <= find_from(s, c, i) && s[find_from(s, c, i)] == c,
    decreases s.len() - i,
{
    if i < s.len() && s[i] != c {
        lemma_find_from(s, c, i + 1);
    }
}

pub fn find_char(s: &[char], c: char, from: usize) -> (r: usize)
    ensures
        r == find_from(s@, c, from as int),
        r <= s@.len(),
        r < s@.len() ==> from <= r && s@[r as int] == c,
{
    let mut i: usize = from;
    while i < s.len() && s[i] != c
        invariant
            from <= i,
            i <= s@.len() || i == from,
            find_from(s@, c, from as int) == find_from(s@, c, i as int),
        decreases s@.len() - i,
    {
        i = i + 1;
    }
    if i < s.len() {
        i
    } else {
        s.len()
    }
}

/// What stands at one place of a format string.
pub enum Token {
    /// One character of literal text.
    Char(char),
    /// A whole segment.
    Piece(SegmentView),
}

/// `#` followed by `open` stands at `i`, and `close` comes after it.
pub open spec fn bracketed_at(s: Seq<char>, i: int, open: char, close: char) -> bool {
    &&& i + 1 < s.len()
    &&& s[i] == '#'
    &&& s[i + 1] == open
    &&& find_from(s, close, i + 2) < s.len()
}

/// The body of a bracketed token at `i`.
pub open spec fn body_at(s: Seq<char>, i: int, close: char) -> Seq<char> {
    s.subrange(i + 2, find_from(s, close, i + 2))
}

/// A closed `#{slot:NAME}` stands at `i`.
pub open spec fn slot_at(s: Seq<char>, i: int) -> bool {
    bracketed_at(s, i, '{', '}') && has_prefix(body_at(s, i, '}'), "slot:"@)
}

/// The token at `i` and the place after it. A token that is malformed or
/// unknown is no token: its characters are literal text.
pub open spec fn token_at(s: Seq<char>, i: int, syntax: Syntax) -> (Token, int) {
    if bracketed_at(s, i, '(', ')') {
        (
            Token::Piece(SegmentView::Command(body_at(s, i, ')'))),
            find_from(s, ')', i + 2) + 1,
        )
    } else if syntax == Syntax::Extended && bracketed_at(s, i, '[', ']') {
        (
            Token::Piece(SegmentView::Style(style_spec(body_at(s, i, ']')))),
            find_from(s, ']', i + 2) + 1,
        )
    } else if syntax == Syntax::Extended && slot_at(s, i) {
        (
            Token::Piece(SegmentView::Slot(body_at(s, i, '}').skip(5))),
            find_from(s, '}', i + 2) + 1,
        )
    } else if s[i] == '%' && i + 1 < s.len() && s[i + 1] == '%' {
        (Token::Char('%'), i + 2)
    } else if clock_field_at(s, i) {
        (
            Token::Piece(SegmentView::Clock(s.subrange(i, clock_run_end(s, i + 2)))),
            clock_run_end(s, i + 2),
        )
    } else {
        (Token::Char(s[i]), i + 1)
    }
}

/// A token takes at least one character and ends within the text.
pub proof fn lemma_token_advances(s: Seq<char>, i: int, syntax: Syntax)
    requires
        0 <= i < s.len(),
    ensures
        i < token_at(s, i, syntax).1 <= s.len(),
{
    lemma_find_from(s, ')', i + 2);
    lemma_find_from(s, ']', i + 2);
    lemma_find_from(s, '}', i + 2);
    if clock_field_at(s, i) {
        lemma_clock_run_end(s, i + 2);
    }
}

/// Pending literal text as a segment; nothing when it is empty.
pub open spec fn flushed(literal: Seq<char>) -> Seq<SegmentView> {
    if literal.len() == 0 {
        Seq::empty()
    } else {
        seq![SegmentView::Literal(literal)]
    }
}

/// The segments of `s` from `i` on, where `literal` is the literal text that
/// ends at `i`: the tokens in order, with neighboring characters joined.
pub open spec fn segments_from(s: Seq<char>, i: int, literal: Seq<char>, syntax: Syntax) -> Seq<
    SegmentView,
>
    decreases s.len() - i,
{
    if 0 <= i < s.len() {
        proof {
            lemma_token_advances(s, i, syntax);
        }
        let (token, next) = token_at(s, i, syntax);
        match token {
            Token::Char(c) => segments_from(s, next, literal.push(c), syntax),
            Token::Piece(segment) => flushed(literal).push(segment) + segments_from(
                s,
                next,
                Seq::empty(),
                syntax,
            ),
        }
    } else {
        flushed(literal)
    }
}

/// The segments of a format string.
pub open spec fn segments_of(s: Seq<char>, syntax: Syntax) -> Seq<SegmentView> {
    segments_from(s, 0, Seq::empty(), syntax)
}

fn flush(literal: String, segments: &mut Vec<Segment>) -> (rest: String)
    ensures
        views(final(segments)@) == views(old(segments)@) + flushed(literal@),
        rest@ == Seq::<char>::empty(),
{
    if literal.as_str().is_empty() {
        assert(views(segments@) + flushed(literal@) =~= views(segments@));
        assert(literal@ =~= Seq::<char>::empty());
        literal
    } else {
        let ghost text = literal@;
        let ghost before = segments@;
        let segment = Segment::Literal(literal);
        proof {
            lemma_views_push(before, segment);
            assert(views(before) + flushed(text) =~= views(before).push(segment@));
        }
        segments.push(segment);
        String::new()
    }
}

/// Read one token: the segment it makes, or `None` for a literal character,
/// and the place after it.
fn next_token(chars: &[char], i: usize, syntax: Syntax) -> (r: (Option<Segment>, usize))
    requires
        i < chars@.len(),
    ensures
        r.1 == token_at(chars@, i as int, syntax).1,
        i < r.1 <= chars@.len(),
        match r.0 {
            Some(segment) => token_at(chars@, i as int, syntax).0 == Token::Piece(segment@),
            None => token_at(chars@, i as int, syntax).0 == Token::Char(chars@[i as int]),
        },
{
    let c = chars[i];
    proof {
        lemma_token_advances(chars@, i as int, syntax);
        reveal_strlit("slot:");
    }
    if i + 1 >= chars.len() {
        return (None, i + 1);
    }
    let d = chars[i + 1];
    if c == '#' && d == '(' {
        let close = find_char(chars, ')', i + 2);
        if close < chars.len() {
            let body = string_of(chars, i + 2, close);
            return (Some(Segment::Command(body)), close + 1);
        }
    } else if c == '#' && d == '[' && syntax == Syntax::Extended {
        let close = find_char(chars, ']', i + 2);
        if close < chars.len() {
            let body = string_of(chars, i + 2, close);
            return (Some(Segment::Style(parse_style_spec(body.as_str()))), close + 1);
        }
    } else if c == '#' && d == '{' && syntax == Syntax::Extended {
        let close = find_char(chars, '}', i + 2);
        if close < chars.len() {
            let body = string_of(chars, i + 2, close);
            let inner = chars_of(body.as_str());
            if starts_with(inner.as_slice(), "slot:") {
                let name = string_of(inner.as_slice(), 5, inner.len());
                assert(name@ =~= body@.skip(5));
                return (Some(Segment::Slot(name)), close + 1);
            }
        }
    } else if c == '%' && d == '%' {
        return (None, i + 2);
    } else if c == '%' && is_clock_specifier(d) {
        let run = consume_clock_run(chars, i);
        return (Some(Segment::Clock(run.0)), run.1);
    }
    (None, i + 1)
}

/// Parse a format string into ordered segments without executing anything.
pub fn parse_format(input: &str, syntax: Syntax) -> (r: Vec<Segment>)
    ensures
        views(r@) == segments_of(input@, syntax),
{
    let chars = chars_of(input);
    let mut segments: Vec<Segment> = Vec::new();
    let mut literal = String::new();
    let mut i: usize = 0;
    proof {
        lemma_views_empty::<Segment>();
        assert(views(segments@) + segments_of(input@, syntax) =~= segments_of(input@, syntax));
    }
    while i < chars.len()
        invariant
            chars@ == input@,
            i <= chars@.len(),
            views(segments@) + segments_from(input@, i as int, literal@, syntax) == segments_of(
                input@,
                syntax,
            ),
        decreases chars@.len() - i,
    {
        let ghost before = segments@;
        let ghost pending = literal@;
        let step = next_token(chars.as_slice(), i, syntax);
        match step.0 {
            Some(segment) => {
                literal = flush(literal, &mut segments);
                proof {
                    lemma_views_push(segments@, segment);
                    let rest = segments_from(input@, step.1 as int, Seq::empty(), syntax);
                    assert(views(before) + (flushed(pending).push(segment@) + rest) =~= (
                    views(before) + flushed(pending)).push(segment@) + rest);
                }
                segments.push(segment);
            },
            None => {
                literal.push(chars[i]);
            },
        }
        i = step.1;
    }
    let tail = flush(literal, &mut segments);
    segments
}

// --- laws -----------------------------------------------------------------

/// Literal text is never empty, and no two literals stand side by side.
pub open spec fn literals_are_maximal(segments: Seq<SegmentView>) -> bool {
    &&& forall|i: int|
        0 <= i < segments.len() ==> (#[trigger] segments[i] matches SegmentView::Literal(text)
            ==> text.len() > 0)
    &&& forall|i: int, j: int|
        0 <= i && j < segments.len() && j == i + 1 ==> !(#[trigger] segments[i] is Literal
            && #[trigger] segments[j] is Literal)
}

/// Parsing joins literal text: there is no empty literal, and no literal has
/// another one next to it.
pub proof fn law_literals_are_maximal(s: Seq<char>, syntax: Syntax)
    ensures
        literals_are_maximal(segments_of(s, syntax)),
{
    lemma_segments_maximal(s, 0, Seq::empty(), syntax);
}

proof fn lemma_segments_maximal(s: Seq<char>, i: int, literal: Seq<char>, syntax: Syntax)
    requires
        0 <= i <= s.len(),
    ensures
        literals_are_maximal(segments_from(s, i, literal, syntax)),
    decreases s.len() - i,
{
    if i < s.len() {
        lemma_token_advances(s, i, syntax);
        let (token, next) = token_at(s, i, syntax);
        match token {
            Token::Char(c) => {
                lemma_segments_maximal(s, next, literal.push(c), syntax);
            },
            Token::Piece(segment) => {
                lemma_segments_maximal(s, next, Seq::empty(), syntax);
                let rest = segments_from(s, next, Seq::empty(), syntax);
                let head = flushed(literal).push(segment);
                assert(!(segment is Literal));
                let all = head + rest;
                assert forall|a: int, b: int| 0 <= a && b < all.len() && b == a + 1 implies !(
                #[trigger] all[a] is Literal && #[trigger] all[b] is Literal) by {
                    if a >= head.len() {
                        assert(all[a] == rest[a - head.len()]);
                        assert(all[b] == rest[b - head.len()]);
                    }
                }
                assert forall|a: int| 0 <= a < all.len() implies (
                #[trigger] all[a] matches SegmentView::Literal(text) ==> text.len() > 0) by {
                    if a >= head.len() {
                        assert(all[a] == rest[a - head.len()]);
                    }
                }
            },
        }
    }
}

/// A segment that the basic syntax knows.
pub open spec fn is_basic(segment: SegmentView) -> bool {
    !(segment is Slot) && !(segment is Style)
}

/// The basic syntax makes neither slots nor directives.
pub proof fn law_basic_syntax_is_basic(s: Seq<char>)
    ensures
        forall|k: int|
            0 <= k < segments_of(s, Syntax::Basic).len() ==> is_basic(
                #[trigger] segments_of(s, Syntax::Basic)[k],
            ),
{
    lemma_segments_basic(s, 0, Seq::empty());
}

spec fn all_basic(segments: Seq<SegmentView>) -> bool {
    forall|k: int| 0 <= k < segments.len() ==> is_basic(#[trigger] segments[k])
}

proof fn lemma_segments_basic(s: Seq<char>, i: int, literal: Seq<char>)
    requires
        0 <= i <= s.len(),
    ensures
        all_basic(segments_from(s, i, literal, Syntax::Basic)),
    decreases s.len() - i,
{
    if i < s.len() {
        lemma_token_advances(s, i, Syntax::Basic);
        let (token, next) = token_at(s, i, Syntax::Basic);
        match token {
            Token::Char(c) => {
                lemma_segments_basic(s, next, literal.push(c));
            },
            Token::Piece(segment) => {
                lemma_segments_basic(s, next, Seq::empty());
            },
        }
    }
}

/// Text without `%` and without any closing bracket is one literal: a token
/// that is never closed stands for itself.
pub proof fn law_unclosed_tokens_are_literal(s: Seq<char>, syntax: Syntax)
    requires
        forall|i: int|
            0 <= i < s.len() ==> (#[trigger] s[i]) != '%' && s[i] != ')' && s[i] != ']' && s[i]
                != '}',
    ensures
        segments_of(s, syntax) == flushed(s),
{
    assert forall|i: int| 0 <= i < s.len() implies #[trigger] token_at(s, i, syntax) == (
        Token::Char(s[i]),
        i + 1,
    ) by {
        lemma_find_from(s, ')', i + 2);
        lemma_find_from(s, ']', i + 2);
        lemma_find_from(s, '}', i + 2);
        assert(s[i] != '%');
    }
    lemma_all_characters(s, 0, Seq::empty(), syntax);
    assert(Seq::<char>::empty() + s.skip(0) =~= s);
}

/// Text without `#` and `%` is one literal.
pub proof fn law_plain_text_is_literal(s: Seq<char>, syntax: Syntax)
    requires
        forall|i: int| 0 <= i < s.len() ==> (#[trigger] s[i]) != '%' && s[i] != '#',
    ensures
        segments_of(s, syntax) == flushed(s),
{
    assert forall|i: int| 0 <= i < s.len() implies #[trigger] token_at(s, i, syntax) == (
        Token::Char(s[i]),
        i + 1,
    ) by {
        assert(s[i] != '%');
    }
    lemma_all_characters(s, 0, Seq::empty(), syntax);
    assert(Seq::<char>::empty() + s.skip(0) =~= s);
}

proof fn lemma_all_characters(s: Seq<char>, i: int, literal: Seq<char>, syntax: Syntax)
    requires
        0 <= i <= s.len(),
        forall|k: int|
            0 <= k < s.len() ==> #[trigger] token_at(s, k, syntax) == (Token::Char(s[k]), k + 1),
    ensures
        segments_from(s, i, literal, syntax) == flushed(literal + s.skip(i)),
    decreases s.len() - i,
{
    if i < s.len() {
        assert(token_at(s, i, syntax) == (Token::Char(s[i]), i + 1));
        lemma_all_characters(s, i + 1, literal.push(s[i]), syntax);
        assert(literal.push(s[i]) + s.skip(i + 1) =~= literal + s.skip(i));
    } else {
        assert(literal + s.skip(i) =~= literal);
    }
}

/// A clock field stands at both ends: connectors around a run are literal text.
pub open spec fn is_clock_run(text: Seq<char>) -> bool {
    &&& text.len() >= 2
    &&& clock_field_at(text, 0)
    &&& clock_field_at(text, text.len() - 2)
}

/// Every clock segment starts and ends with a clock field.
pub proof fn law_clock_runs_are_tight(s: Seq<char>, syntax: Syntax)
    ensures
        clock_runs_are_tight(segments_of(s, syntax)),
{
    lemma_segments_tight(s, 0, Seq::empty(), syntax);
}

/// Each clock segment is a clock run.
pub open spec fn clock_runs_are_tight(segments: Seq<SegmentView>) -> bool {
    forall|k: int|
        0 <= k < segments.len() ==> (#[trigger] segments[k] matches SegmentView::Clock(text)
            ==> is_clock_run(text))
}

proof fn lemma_run_ends_with_field(s: Seq<char>, i: int)
    requires
        2 <= i <= s.len(),
        clock_field_at(s, i - 2),
    ensures
        i <= clock_run_end(s, i) <= s.len(),
        clock_field_at(s, clock_run_end(s, i) - 2),
    decreases s.len() - i,
{
    lemma_clock_run_end(s, i);
    lemma_connectors_end(s, i);
    let j = connectors_end(s, i);
    if clock_field_at(s, j) {
        lemma_run_ends_with_field(s, j + 2);
    }
}

proof fn lemma_segments_tight(s: Seq<char>, i: int, literal: Seq<char>, syntax: Syntax)
    requires
        0 <= i <= s.len(),
    ensures
        clock_runs_are_tight(segments_from(s, i, literal, syntax)),
    decreases s.len() - i,
{
    if i < s.len() {
        lemma_token_advances(s, i, syntax);
        let (token, next) = token_at(s, i, syntax);
        match token {
            Token::Char(c) => {
                lemma_segments_tight(s, next, literal.push(c), syntax);
            },
            Token::Piece(segment) => {
                lemma_segments_tight(s, next, Seq::empty(), syntax);
                if segment is Clock {
                    lemma_run_ends_with_field(s, i + 2);
                    let text = s.subrange(i, next);
                    assert(text[0] == s[i] && text[1] == s[i + 1]);
                    assert(text[text.len() - 2] == s[next - 2]);
                    assert(text[text.len() - 1] == s[next - 1]);
                }
            },
        }
    }
}

/// A directive replaces the colors that it sets and leaves the others as they
/// were; its modifiers come on top of those in force. One that resets goes by
/// what it sets alone.
pub proof fn law_directive_changes_what_it_sets(d: StyleSpecView, current: StyleSpecView)
    ensures
        d.fg is Some ==> d.folded_onto(current).fg == d.fg,
        d.bg is Some ==> d.folded_onto(current).bg == d.bg,
        d.fg is None && !d.reset ==> d.folded_onto(current).fg == current.fg,
        d.bg is None && !d.reset ==> d.folded_onto(current).bg == current.bg,
        d.fg is None && d.reset ==> d.folded_onto(current).fg is None,
        d.bg is None && d.reset ==> d.folded_onto(current).bg is None,
        !d.reset ==> d.folded_onto(current).add_modifier.bits == current.add_modifier.bits
            | d.add_modifier.bits,
        d.reset ==> d.folded_onto(current).add_modifier.bits == d.add_modifier.bits,
        !current.reset ==> !d.folded_onto(current).reset,
{
    let bits = d.add_modifier.bits;
    assert(0u16 | bits == bits) by (bit_vector);
}

/// A directive hides every color that was set before it and that it sets too:
/// what stood before makes no difference to it.
pub proof fn law_later_color_hides_the_earlier(
    d: StyleSpecView,
    before: StyleSpecView,
    other: StyleSpecView,
)
    ensures
        d.fg is Some ==> d.folded_onto(before).fg == d.folded_onto(other).fg,
        d.bg is Some ==> d.folded_onto(before).bg == d.folded_onto(other).bg,
        d.reset ==> d.folded_onto(before) == d.folded_onto(other),
{
}

// --- laws on attributes -----------------------------------------------------

proof fn lemma_attrs_shift(p: Seq<char>, s: Seq<char>, i: int, depth: nat, buf: Seq<char>)
    requires
        0 <= i <= s.len(),
    ensures
        attrs_from(p + s, p.len() + i, depth, buf) == attrs_from(s, i, depth, buf),
    decreases s.len() - i,
{
    if i < s.len() {
        assert((p + s)[p.len() + i] == s[i]);
        let inside: nat = if s[i] == '(' {
            depth + 1
        } else if s[i] == ')' && depth > 0 {
            (depth - 1) as nat
        } else {
            depth
        };
        lemma_attrs_shift(p, s, i + 1, 0, Seq::empty());
        lemma_attrs_shift(p, s, i + 1, inside, buf.push(s[i]));
    }
}

/// Neither a comma nor a parenthesis.
pub open spec fn is_flat(s: Seq<char>) -> bool {
    forall|i: int|
        0 <= i < s.len() ==> (#[trigger] s[i]) != ',' && s[i] != '(' && s[i] != ')'
}

/// No parenthesis.
pub open spec fn has_no_parenthesis(s: Seq<char>) -> bool {
    forall|i: int| 0 <= i < s.len() ==> (#[trigger] s[i]) != '(' && s[i] != ')'
}

/// Characters that end no attribute are collected.
proof fn lemma_attrs_collect(
    a: Seq<char>,
    rest: Seq<char>,
    i: int,
    depth: nat,
    buf: Seq<char>,
)
    requires
        0 <= i <= a.len(),
        has_no_parenthesis(a),
        depth == 0 ==> is_flat(a),
    ensures
        attrs_from(a + rest, i, depth, buf) == attrs_from(rest, 0, depth, buf + a.skip(i)),
    decreases a.len() - i,
{
    let s = a + rest;
    if i < a.len() {
        assert(s[i] == a[i]);
        assert(a[i] != '(' && a[i] != ')');
        lemma_attrs_collect(a, rest, i + 1, depth, buf.push(a[i]));
        assert(buf.push(a[i]) + a.skip(i + 1) =~= buf + a.skip(i));
    } else {
        assert(buf + a.skip(i) =~= buf);
        lemma_attrs_shift(a, rest, 0, depth, buf);
    }
}

/// A comma separates attributes: what stands before the first one is the first
/// attribute, and the rest is read like a body of its own. Without a comma the
/// whole body is one attribute.
pub proof fn law_commas_separate_attributes(a: Seq<char>, b: Seq<char>)
    requires
        is_flat(a),
    ensures
        style_attrs(a) == seq![a],
        style_attrs(a + seq![','] + b) == seq![a] + style_attrs(b),
{
    let none = Seq::<char>::empty();
    lemma_attrs_collect(a, none, 0, 0, none);
    assert(a + none =~= a);
    assert(none + a.skip(0) =~= a);
    let tail = seq![','] + b;
    lemma_attrs_collect(a, tail, 0, 0, none);
    assert(a + seq![','] + b =~= a + tail);
    assert(tail[0] == ',');
    lemma_attrs_shift(seq![','], b, 0, 0, none);
}

/// A comma inside parentheses separates nothing.
pub proof fn law_parentheses_keep_their_commas(a: Seq<char>, inner: Seq<char>, b: Seq<char>)
    requires
        is_flat(a),
        has_no_parenthesis(inner),
    ensures
        style_attrs(a + seq!['('] + inner + seq![')']) == seq![a + seq!['('] + inner + seq![')']],
        style_attrs(a + seq!['('] + inner + seq![')'] + seq![','] + b) == seq![
            a + seq!['('] + inner + seq![')'],
        ] + style_attrs(b),
{
    let none = Seq::<char>::empty();
    let whole = a + seq!['('] + inner + seq![')'];
    lemma_parenthesized(a, inner, none);
    assert(whole + none =~= whole);
    assert(attrs_from(none, 0, 0, whole) =~= seq![whole]);
    let tail = seq![','] + b;
    lemma_parenthesized(a, inner, tail);
    assert(whole + seq![','] + b =~= whole + tail);
    assert(tail[0] == ',');
    lemma_attrs_shift(seq![','], b, 0, 0, none);
}

proof fn lemma_parenthesized(a: Seq<char>, inner: Seq<char>, rest: Seq<char>)
    requires
        is_flat(a),
        has_no_parenthesis(inner),
    ensures
        style_attrs(a + seq!['('] + inner + seq![')'] + rest) == attrs_from(
            rest,
            0,
            0,
            a + seq!['('] + inner + seq![')'],
        ),
{
    let none = Seq::<char>::empty();
    let close = seq![')'] + rest;
    let body = inner + close;
    let open = seq!['('] + body;
    assert(a + seq!['('] + inner + seq![')'] + rest =~= a + open);
    lemma_attrs_collect(a, open, 0, 0, none);
    assert(none + a.skip(0) =~= a);
    assert(open[0] == '(');
    lemma_attrs_shift(seq!['('], body, 0, 1, a.push('('));
    lemma_attrs_collect(inner, close, 0, 1, a.push('('));
    let held = a.push('(') + inner.skip(0);
    assert(held =~= a + seq!['('] + inner);
    assert(close[0] == ')');
    lemma_attrs_shift(seq![')'], rest, 0, 0, held.push(')'));
    assert(held.push(')') =~= a + seq!['('] + inner + seq![')']);
}

/// A text without blank space at its ends and without capitals.
pub open spec fn is_settled(s: Seq<char>) -> bool {
    &&& s.len() > 0 ==> !whitespace(s.first()) && !whitespace(s.last())
    &&& forall|i: int| 0 <= i < s.len() ==> !('A' <= #[trigger] s[i] <= 'Z')
}

proof fn lemma_settled(s: Seq<char>)
    requires
        is_settled(s),
    ensures
        lowered(trimmed(s)) == s,
{
    assert(lowered(s) =~= s);
}

/// Case and blank space at the ends of an attribute make no difference.
pub proof fn law_attributes_are_read_loosely(
    spec: StyleSpecView,
    attr: Seq<char>,
    other: Seq<char>,
)
    requires
        lowered(trimmed(attr)) == lowered(trimmed(other)),
    ensures
        with_attr(spec, attr) == with_attr(spec, other),
{
}

/// A color attribute sets its own color to its value as it stands, and nothing
/// else.
pub proof fn law_color_attributes(spec: StyleSpecView, value: Seq<char>)
    requires
        is_settled(seq!['f', 'g', '='] + value),
    ensures
        with_attr(spec, seq!['f', 'g', '='] + value) == (StyleSpecView { fg: Some(value), ..spec }),
        with_attr(spec, seq!['b', 'g', '='] + value) == (StyleSpecView { bg: Some(value), ..spec }),
{
    reveal_strlit("default");
    reveal_strlit("none");
    reveal_strlit("bold");
    reveal_strlit("dim");
    reveal_strlit("italic");
    reveal_strlit("underline");
    reveal_strlit("reverse");
    reveal_strlit("fg=");
    reveal_strlit("bg=");
    let f = seq!['f', 'g', '='] + value;
    let b = seq!['b', 'g', '='] + value;
    assert forall|i: int| 0 <= i < b.len() implies !('A' <= #[trigger] b[i] <= 'Z') by {
        if i >= 3 {
            assert(b[i] == f[i]);
        }
    }
    assert(b.len() > 3 ==> b.last() == f.last());
    lemma_settled(f);
    lemma_settled(b);
    assert(f[0] == 'f' && f[1] == 'g');
    assert(b[0] == 'b' && b[1] == 'g');
    assert(f.take(3) =~= "fg="@);
    assert(b.take(3) =~= "bg="@);
    assert(f.skip(3) =~= value);
    assert(b.skip(3) =~= value);
    assert("bold"@[1] == 'o');
    assert(b.take(3)[0] == 'b');
    assert("fg="@[0] == 'f');
    assert("default"@[0] == 'd');
    assert("none"@[0] == 'n');
    assert("dim"@[0] == 'd');
    assert("italic"@[0] == 'i');
    assert("underline"@[0] == 'u');
    assert("reverse"@[0] == 'r');
}

/// The modifiers by their names, one bit each, and the two words that reset.
pub proof fn law_attribute_words(spec: StyleSpecView)
    ensures
        with_attr(spec, "bold"@) == (StyleSpecView {
            add_modifier: Modifier { bits: spec.add_modifier.bits | 0x1 },
            ..spec
        }),
        with_attr(spec, "dim"@) == (StyleSpecView {
            add_modifier: Modifier { bits: spec.add_modifier.bits | 0x2 },
            ..spec
        }),
        with_attr(spec, "italic"@) == (StyleSpecView {
            add_modifier: Modifier { bits: spec.add_modifier.bits | 0x4 },
            ..spec
        }),
        with_attr(spec, "underline"@) == (StyleSpecView {
            add_modifier: Modifier { bits: spec.add_modifier.bits | 0x8 },
            ..spec
        }),
        with_attr(spec, "reverse"@) == (StyleSpecView {
            add_modifier: Modifier { bits: spec.add_modifier.bits | 0x40 },
            ..spec
        }),
        with_attr(spec, "default"@) == (StyleSpecView { reset: true, ..spec }),
        with_attr(spec, "none"@) == (StyleSpecView { reset: true, ..spec }),
{
    reveal_strlit("default");
    reveal_strlit("none");
    reveal_strlit("bold");
    reveal_strlit("dim");
    reveal_strlit("italic");
    reveal_strlit("underline");
    reveal_strlit("reverse");
    lemma_settled("default"@);
    lemma_settled("none"@);
    lemma_settled("bold"@);
    lemma_settled("dim"@);
    lemma_settled("italic"@);
    lemma_settled("underline"@);
    lemma_settled("reverse"@);
    assert("bold"@[0] == 'b');
    assert("none"@[0] == 'n');
    assert("default"@[0] == 'd');
    assert("reverse"@[0] == 'r');
}

/// Attributes are read from left to right, each on top of those before it; an
/// empty body sets nothing.
pub proof fn law_attributes_add_up(attrs: Seq<Seq<char>>, attr: Seq<char>)
    ensures
        with_attrs(Seq::empty()) == (StyleSpecView {
            fg: None,
            bg: None,
            add_modifier: Modifier { bits: 0 },
            reset: false,
        }),
        with_attrs(attrs.push(attr)) == with_attr(with_attrs(attrs), attr),
{
    assert(attrs.push(attr).drop_last() =~= attrs);
}

// --- laws on tokens ---------------------------------------------------------

proof fn lemma_find_shift(p: Seq<char>, s: Seq<char>, c: char, i: int)
    requires
        0 <= i,
    ensures
        find_from(p + s, c, p.len() + i) == p.len() + find_from(s, c, i),
    decreases s.len() - i,
{
    if i < s.len() {
        assert((p + s)[p.len() + i] == s[i]);
        if s[i] != c {
            lemma_find_shift(p, s, c, i + 1);
        }
    }
}

proof fn lemma_connectors_shift(p: Seq<char>, s: Seq<char>, i: int)
    requires
        0 <= i,
    ensures
        connectors_end(p + s, p.len() + i) == p.len() + connectors_end(s, i),
    decreases s.len() - i,
{
    if i < s.len() {
        assert((p + s)[p.len() + i] == s[i]);
        if clock_connector(s[i]) {
            lemma_connectors_shift(p, s, i + 1);
        }
    }
}

proof fn lemma_field_shift(p: Seq<char>, s: Seq<char>, i: int)
    requires
        0 <= i,
    ensures
        clock_field_at(p + s, p.len() + i) == clock_field_at(s, i),
{
    if i + 1 < s.len() {
        assert((p + s)[p.len() + i] == s[i]);
        assert((p + s)[p.len() + i + 1] == s[i + 1]);
    }
}

proof fn lemma_run_shift(p: Seq<char>, s: Seq<char>, i: int)
    requires
        0 <= i <= s.len(),
    ensures
        clock_run_end(p + s, p.len() + i) == p.len() + clock_run_end(s, i),
    decreases s.len() - i,
{
    let j = connectors_end(s, i);
    lemma_connectors_end(s, i);
    lemma_connectors_shift(p, s, i);
    lemma_field_shift(p, s, j);
    if clock_field_at(s, j) {
        lemma_run_shift(p, s, j + 2);
    }
}

proof fn lemma_token_shift(p: Seq<char>, s: Seq<char>, i: int, syntax: Syntax)
    requires
        0 <= i < s.len(),
    ensures
        token_at(p + s, p.len() + i, syntax).0 == token_at(s, i, syntax).0,
        token_at(p + s, p.len() + i, syntax).1 == p.len() + token_at(s, i, syntax).1,
{
    let t = p + s;
    let at = p.len() + i;
    assert(t[at] == s[i]);
    if i + 1 < s.len() {
        assert(t[at + 1] == s[i + 1]);
    }
    lemma_find_shift(p, s, ')', i + 2);
    lemma_find_shift(p, s, ']', i + 2);
    lemma_find_shift(p, s, '}', i + 2);
    lemma_find_from(s, ')', i + 2);
    lemma_find_from(s, ']', i + 2);
    lemma_find_from(s, '}', i + 2);
    if bracketed_at(s, i, '(', ')') {
        assert(body_at(t, at, ')') =~= body_at(s, i, ')'));
    }
    if bracketed_at(s, i, '[', ']') {
        assert(body_at(t, at, ']') =~= body_at(s, i, ']'));
    }
    if bracketed_at(s, i, '{', '}') {
        assert(body_at(t, at, '}') =~= body_at(s, i, '}'));
    }
    lemma_field_shift(p, s, i);
    if clock_field_at(s, i) {
        lemma_run_shift(p, s, i + 2);
        lemma_clock_run_end(s, i + 2);
        let end = clock_run_end(s, i + 2);
        assert(t.subrange(at, p.len() + end) =~= s.subrange(i, end));
    }
}

proof fn lemma_segments_shift(
    p: Seq<char>,
    s: Seq<char>,
    i: int,
    literal: Seq<char>,
    syntax: Syntax,
)
    requires
        0 <= i <= s.len(),
    ensures
        segments_from(p + s, p.len() + i, literal, syntax) == segments_from(s, i, literal, syntax),
    decreases s.len() - i,
{
    if i < s.len() {
        lemma_token_advances(s, i, syntax);
        lemma_token_advances(p + s, p.len() + i, syntax);
        lemma_token_shift(p, s, i, syntax);
        let (token, next) = token_at(s, i, syntax);
        match token {
            Token::Char(c) => {
                lemma_segments_shift(p, s, next, literal.push(c), syntax);
            },
            Token::Piece(segment) => {
                lemma_segments_shift(p, s, next, Seq::empty(), syntax);
            },
        }
    }
}

/// Neither `#` nor `%`.
pub open spec fn is_plain(s: Seq<char>) -> bool {
    forall|i: int| 0 <= i < s.len() ==> (#[trigger] s[i]) != '%' && s[i] != '#'
}

/// `s` does not hold `c`.
pub open spec fn lacks(s: Seq<char>, c: char) -> bool {
    forall|i: int| 0 <= i < s.len() ==> (#[trigger] s[i]) != c
}

proof fn lemma_plain_start(
    before: Seq<char>,
    s: Seq<char>,
    i: int,
    literal: Seq<char>,
    syntax: Syntax,
)
    requires
        0 <= i <= before.len(),
        is_plain(before),
    ensures
        segments_from(before + s, i, literal, syntax) == segments_from(
            s,
            0,
            literal + before.skip(i),
            syntax,
        ),
    decreases before.len() - i,
{
    let t = before + s;
    if i < before.len() {
        assert(t[i] == before[i]);
        assert(before[i] != '%' && before[i] != '#');
        assert(token_at(t, i, syntax) == (Token::Char(before[i]), i + 1));
        lemma_plain_start(before, s, i + 1, literal.push(before[i]), syntax);
        assert(literal.push(before[i]) + before.skip(i + 1) =~= literal + before.skip(i));
    } else {
        assert(literal + before.skip(i) =~= literal);
        lemma_segments_shift(before, s, 0, literal, syntax);
    }
}

proof fn lemma_find_exact(s: Seq<char>, c: char, i: int, at: int)
    requires
        0 <= i <= at < s.len(),
        s[at] == c,
        forall|k: int| i <= k < at ==> (#[trigger] s[k]) != c,
    ensures
        find_from(s, c, i) == at,
    decreases at - i,
{
    if i < at {
        assert(s[i] != c);
        lemma_find_exact(s, c, i + 1, at);
    }
}

/// A text as a segment of its own, unless it is empty.
pub open spec fn as_literal(text: Seq<char>) -> Seq<SegmentView> {
    if text.len() == 0 {
        Seq::empty()
    } else {
        seq![SegmentView::Literal(text)]
    }
}

proof fn lemma_piece_first(
    before: Seq<char>,
    token: Seq<char>,
    rest: Seq<char>,
    segment: SegmentView,
    syntax: Syntax,
)
    requires
        is_plain(before),
        token.len() > 0,
        token_at(token + rest, 0, syntax) == (Token::Piece(segment), token.len() as int),
    ensures
        segments_of(before + token + rest, syntax) == as_literal(before) + seq![segment]
            + segments_of(rest, syntax),
{
    let s = token + rest;
    let none = Seq::<char>::empty();
    assert(before + token + rest =~= before + s);
    lemma_plain_start(before, s, 0, none, syntax);
    assert(none + before.skip(0) =~= before);
    lemma_token_advances(s, 0, syntax);
    lemma_segments_shift(token, rest, 0, none, syntax);
    assert(flushed(before).push(segment) + segments_of(rest, syntax) =~= as_literal(before)
        + seq![segment] + segments_of(rest, syntax));
}

/// `#(command)` is the command between its brackets: the text before it is
/// literal, and the rest is read on its own.
pub proof fn law_command_token(
    before: Seq<char>,
    command: Seq<char>,
    rest: Seq<char>,
    syntax: Syntax,
)
    requires
        is_plain(before),
        lacks(command, ')'),
    ensures
        segments_of(before + seq!['#', '('] + command + seq![')'] + rest, syntax) == as_literal(
            before,
        ) + seq![SegmentView::Command(command)] + segments_of(rest, syntax),
{
    let token = seq!['#', '('] + command + seq![')'];
    let s = token + rest;
    let at = 2 + command.len();
    assert forall|k: int| 2 <= k < at implies (#[trigger] s[k]) != ')' by {
        assert(s[k] == command[k - 2]);
    }
    lemma_find_exact(s, ')', 2, at as int);
    assert(body_at(s, 0, ')') =~= command);
    lemma_piece_first(before, token, rest, SegmentView::Command(command), syntax);
    assert(before + seq!['#', '('] + command + seq![')'] + rest =~= before + token + rest);
}

/// `#{slot:NAME}` is the slot of that name.
pub proof fn law_slot_token(before: Seq<char>, name: Seq<char>, rest: Seq<char>)
    requires
        is_plain(before),
        lacks(name, '}'),
    ensures
        segments_of(
            before + seq!['#', '{', 's', 'l', 'o', 't', ':'] + name + seq!['}'] + rest,
            Syntax::Extended,
        ) == as_literal(before) + seq![SegmentView::Slot(name)] + segments_of(
            rest,
            Syntax::Extended,
        ),
{
    let head = seq!['#', '{', 's', 'l', 'o', 't', ':'];
    let token = head + name + seq!['}'];
    let s = token + rest;
    let at = 7 + name.len();
    reveal_strlit("slot:");
    assert forall|k: int| 2 <= k < at implies (#[trigger] s[k]) != '}' by {
        if k >= 7 {
            assert(s[k] == name[k - 7]);
        } else {
            assert(s[k] == head[k]);
        }
    }
    lemma_find_exact(s, '}', 2, at as int);
    let body = body_at(s, 0, '}');
    assert(body =~= seq!['s', 'l', 'o', 't', ':'] + name);
    assert(body.take(5) =~= "slot:"@);
    assert(body.skip(5) =~= name);
    lemma_piece_first(before, token, rest, SegmentView::Slot(name), Syntax::Extended);
    assert(before + head + name + seq!['}'] + rest =~= before + token + rest);
}

/// `#[...]` is a directive that says what stands between its brackets.
pub proof fn law_directive_token(before: Seq<char>, body: Seq<char>, rest: Seq<char>)
    requires
        is_plain(before),
        lacks(body, ']'),
    ensures
        segments_of(before + seq!['#', '['] + body + seq![']'] + rest, Syntax::Extended)
            == as_literal(before) + seq![SegmentView::Style(style_spec(body))] + segments_of(
            rest,
            Syntax::Extended,
        ),
{
    let token = seq!['#', '['] + body + seq![']'];
    let s = token + rest;
    let at = 2 + body.len();
    assert forall|k: int| 2 <= k < at implies (#[trigger] s[k]) != ']' by {
        assert(s[k] == body[k - 2]);
    }
    lemma_find_exact(s, ']', 2, at as int);
    assert(body_at(s, 0, ']') =~= body);
    lemma_piece_first(
        before,
        token,
        rest,
        SegmentView::Style(style_spec(body)),
        Syntax::Extended,
    );
    assert(before + seq!['#', '['] + body + seq![']'] + rest =~= before + token + rest);
}

/// The letter of a clock field.
pub open spec fn is_field_letter(c: char) -> bool {
    c == 'H' || c == 'M' || c == 'S' || c == 'd' || c == 'b' || c == 'Y'
}

/// Only characters that may join two clock fields.
pub open spec fn only_joins(s: Seq<char>) -> bool {
    forall|i: int|
        0 <= i < s.len() ==> (#[trigger] s[i]) == ':' || s[i] == ' ' || s[i] == '-' || s[i] == '/'
            || s[i] == '.' || s[i] == ','
}

/// No clock field follows at the start of `rest`, behind joining characters.
pub open spec fn starts_no_field(rest: Seq<char>) -> bool {
    !clock_field_at(rest, connectors_end(rest, 0))
}

/// A clock field is a run of its own where no other follows; two fields with
/// joining characters between them are one run, those characters among it.
pub proof fn law_clock_token(
    before: Seq<char>,
    a: char,
    joins: Seq<char>,
    b: char,
    rest: Seq<char>,
    syntax: Syntax,
)
    requires
        is_plain(before),
        is_field_letter(a),
        is_field_letter(b),
        only_joins(joins),
        starts_no_field(rest),
    ensures
        segments_of(before + seq!['%', a] + rest, syntax) == as_literal(before) + seq![
            SegmentView::Clock(seq!['%', a]),
        ] + segments_of(rest, syntax),
        segments_of(before + seq!['%', a] + joins + seq!['%', b] + rest, syntax) == as_literal(
            before,
        ) + seq![SegmentView::Clock(seq!['%', a] + joins + seq!['%', b])] + segments_of(
            rest,
            syntax,
        ),
{
    let one = seq!['%', a];
    let s = one + rest;
    lemma_run_shift(one, rest, 0);
    assert(clock_run_end(rest, 0) == 0);
    assert(s[0] == '%' && s[1] == a);
    assert(s.subrange(0, 2) =~= one);
    lemma_piece_first(before, one, rest, SegmentView::Clock(one), syntax);
    let two = one + joins + seq!['%', b];
    let t = two + rest;
    let n = joins.len() as int;
    let tail = joins + (seq!['%', b] + rest);
    assert(t =~= one + tail);
    lemma_joins_end(joins, seq!['%', b] + rest, 0);
    lemma_run_shift(one, tail, 0);
    assert(tail[n] == '%' && tail[n + 1] == b);
    let before_rest = joins + seq!['%', b];
    assert(tail =~= before_rest + rest);
    lemma_run_shift(before_rest, rest, 0);
    assert(clock_run_end(tail, 0) == clock_run_end(tail, n + 2));
    assert(t[0] == '%' && t[1] == a);
    assert(t.subrange(0, n + 4) =~= two);
    lemma_piece_first(before, two, rest, SegmentView::Clock(two), syntax);
    assert(before + one + joins + seq!['%', b] + rest =~= before + two + rest);
}

proof fn lemma_joins_end(joins: Seq<char>, rest: Seq<char>, i: int)
    requires
        0 <= i <= joins.len(),
        only_joins(joins),
        rest.len() > 0,
        rest[0] == '%',
    ensures
        connectors_end(joins + rest, i) == joins.len(),
    decreases joins.len() - i,
{
    let s = joins + rest;
    if i < joins.len() {
        assert(s[i] == joins[i]);
        lemma_joins_end(joins, rest, i + 1);
    } else {
        assert(s[i] == '%');
    }
}

/// `%%` is a percent sign, and joins the text around it.
pub proof fn law_percent_token(before: Seq<char>, after: Seq<char>, syntax: Syntax)
    requires
        is_plain(before),
        is_plain(after),
    ensures
        segments_of(before + seq!['%', '%'] + after, syntax) == seq![
            SegmentView::Literal(before + seq!['%'] + after),
        ],
{
    let none = Seq::<char>::empty();
    let signs = seq!['%', '%'];
    let s = signs + after;
    assert(before + signs + after =~= before + s);
    lemma_plain_start(before, s, 0, none, syntax);
    assert(none + before.skip(0) =~= before);
    assert(s[0] == '%' && s[1] == '%');
    assert(token_at(s, 0, syntax) == (Token::Char('%'), 2int));
    lemma_segments_shift(signs, after, 0, before.push('%'), syntax);
    assert(after + none =~= after);
    lemma_plain_start(after, none, 0, before.push('%'), syntax);
    assert(before.push('%') + after.skip(0) =~= before + seq!['%'] + after);
}

/// The basic syntax knows neither slots nor directives: without a clock field
/// and without a command the whole text is literal.
pub proof fn law_basic_syntax_keeps_brackets(s: Seq<char>)
    requires
        lacks(s, '%'),
        lacks(s, '('),
    ensures
        segments_of(s, Syntax::Basic) == as_literal(s),
{
    assert forall|i: int| 0 <= i < s.len() implies #[trigger] token_at(s, i, Syntax::Basic) == (
        Token::Char(s[i]),
        i + 1,
    ) by {
        assert(s[i] != '%');
        if i + 1 < s.len() {
            assert(s[i + 1] != '(');
        }
    }
    lemma_all_characters(s, 0, Seq::empty(), Syntax::Basic);
    assert(Seq::<char>::empty() + s.skip(0) =~= s);
}

/// An attribute that is no known word and sets no color changes nothing.
pub proof fn law_unknown_attributes_are_ignored(spec: StyleSpecView, attr: Seq<char>)
    requires
        ({
            let t = lowered(trimmed(attr));
            &&& t != "default"@ && t != "none"@ && t != "bold"@ && t != "dim"@ && t != "italic"@ && t
                != "underline"@ && t != "reverse"@
            &&& t.len() < 3 || t[2] != '='
        }),
    ensures
        with_attr(spec, attr) == spec,
{
    reveal_strlit("fg=");
    reveal_strlit("bg=");
    let t = lowered(trimmed(attr));
    if t.len() >= 3 {
        assert(t.take(3)[2] == t[2]);
        assert("fg="@[2] == '=' && "bg="@[2] == '=');
    }
}

} // verus!
