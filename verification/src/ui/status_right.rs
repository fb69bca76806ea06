//! The status strip of the single-process interface: plain text, fitted to a
//! budget of display columns.

use vstd::prelude::*;

use crate::format::{find_char, find_from, is_basic, law_basic_syntax_is_basic, parse_format, segments_of, SegmentView, Syntax};
use crate::strip::{CommandSlot, StatusConfig, StripCache, StripView};
use crate::text::{
    chars_of, control, decimal, is_control, law_signed_numbers,
    law_trimming_takes_blank_space_only, lemma_trimmed_ends, lemma_trimmed_idempotent,
    lemma_views_push, owned, push_signed_decimal, push_text, signed_decimal, string_of, trim_bounds,
    trim_end, trim_start, trimmed, views, whitespace,
};
use crate::time::{Duration, Instant};
use crate::width::{
    cells_width, ellipsize, ellipsized, kept_before_ellipsis, lemma_fitting_prefix, measure_str,
    str_width, CellMeasure,
};

pub use crate::app::status_strip::SegmentKind;
pub use crate::clock::{format_clock, ClockTime};
pub use crate::format::{consume_clock_run, is_clock_connector, is_clock_specifier, Segment};

verus! {

/// Characters kept of a command's output.
pub const MAX_SEGMENT_CHARS: usize = 256;

/// Parse a `status_right` format string of clock runs and commands.
pub fn parse_status_right(input: &str) -> (r: Vec<Segment>)
    ensures
        views(r@) == segments_of(input@, Syntax::Basic),
{
    parse_format(input, Syntax::Basic)
}

// --- command output -------------------------------------------------------------

/// The characters that are no control characters, in order.
pub open spec fn printable(s: Seq<char>) -> Seq<char> {
    s.filter(|c: char| !control(c))
}

/// At most the first `n` items.
pub open spec fn at_most(s: Seq<char>, n: nat) -> Seq<char> {
    if s.len() <= n {
        s
    } else {
        s.take(n as int)
    }
}

/// The first line of a text, without control characters, cut to a length and
/// without blank space at its ends.
pub open spec fn sanitized(raw: Seq<char>) -> Seq<char> {
    trimmed(at_most(printable(raw.take(find_from(raw, '\n', 0))), MAX_SEGMENT_CHARS as nat))
}

/// Reduce command output to one line of plain text. Control characters are
/// dropped, so that output cannot carry escape sequences.
pub fn sanitize_command_output(raw: &str) -> (r: String)
    ensures
        r@ == sanitized(raw@),
{
    let chars = chars_of(raw);
    let end: usize = find_char(chars.as_slice(), '\n', 0);
    let ghost line = raw@.take(end as int);
    let mut kept: Vec<char> = Vec::new();
    let mut i: usize = 0;
    proof {
        reveal(Seq::filter);
        assert(line.take(0) =~= Seq::<char>::empty());
    }
    while i < end && kept.len() < MAX_SEGMENT_CHARS
        invariant
            chars@ == raw@,
            i <= end <= chars@.len(),
            line == raw@.take(end as int),
            kept@ == printable(line.take(i as int)),
            kept@.len() <= MAX_SEGMENT_CHARS,
        decreases end - i,
    {
        let c = chars[i];
        proof {
            reveal(Seq::filter);
            assert(line.take(i as int + 1).drop_last() =~= line.take(i as int));
            assert(line.take(i as int + 1).last() == c);
        }
        if !is_control(c) {
            kept.push(c);
        }
        i = i + 1;
    }
    proof {
        assert(line.take(line.len() as int) =~= line);
        lemma_printable_prefix(line, i as int);
        assert(kept@ =~= at_most(printable(line), MAX_SEGMENT_CHARS as nat));
    }
    let bounds = trim_bounds(kept.as_slice());
    string_of(kept.as_slice(), bounds.0, bounds.1)
}

/// What is printable of the start of a text is the start of what is printable.
proof fn lemma_printable_prefix(s: Seq<char>, i: int)
    requires
        0 <= i <= s.len(),
    ensures
        printable(s.take(i)).len() <= printable(s).len(),
        printable(s.take(i)) == printable(s).take(printable(s.take(i)).len() as int),
    decreases s.len() - i,
{
    reveal(Seq::filter);
    if i == s.len() {
        assert(s.take(i) =~= s);
        assert(printable(s).take(printable(s).len() as int) =~= printable(s));
    } else {
        lemma_printable_prefix(s, i + 1);
        assert(s.take(i + 1).drop_last() =~= s.take(i));
        let longer = printable(s.take(i + 1));
        let shorter = printable(s.take(i));
        assert(shorter =~= longer.take(shorter.len() as int));
        assert(shorter =~= printable(s).take(shorter.len() as int));
    }
}

/// How a command ended.
#[derive(Debug, Clone, PartialEq, Eq)]
pub enum CommandExit {
    Success,
    /// It reported failure, with its exit code unless a signal ended it.
    Failure(Option<i32>),
    /// It could not be run at all, for the given reason.
    NotRun(String),
}

/// The message for a command that reported failure.
pub open spec fn failure_text(code: Option<i32>) -> Seq<char> {
    match code {
        Some(n) => "exit status Some("@ + signed_decimal(n as int) + ")"@,
        None => "exit status None"@,
    }
}

/// The output of a command that succeeded, or why there is none.
pub open spec fn outcome_of(exit: CommandExit, stdout: Seq<char>) -> Result<Seq<char>, Seq<char>> {
    match exit {
        CommandExit::Success => Ok(stdout),
        CommandExit::Failure(code) => Err(failure_text(code)),
        CommandExit::NotRun(reason) => Err(reason@),
    }
}

/// What a finished command hands back: its output where it succeeded, and the
/// reason where it did not.
pub fn command_outcome(exit: CommandExit, stdout: String) -> (r: Result<String, String>)
    ensures
        match exit {
            CommandExit::Success => r matches Ok(output) && output@ == stdout@,
            CommandExit::Failure(code) => r matches Err(message) && message@ == failure_text(code),
            CommandExit::NotRun(reason) => r matches Err(message) && message@ == reason@,
        },
        match r {
            Ok(output) => outcome_of(exit, stdout@) == Ok::<Seq<char>, Seq<char>>(output@),
            Err(message) => outcome_of(exit, stdout@) == Err::<Seq<char>, Seq<char>>(message@),
        },
{
    match exit {
        CommandExit::Success => Ok(stdout),
        CommandExit::Failure(Some(n)) => {
            let mut message = owned("exit status Some(");
            push_signed_decimal(&mut message, n);
            push_text(&mut message, ")");
            Err(message)
        },
        CommandExit::Failure(None) => Err(owned("exit status None")),
        CommandExit::NotRun(reason) => Err(reason),
    }
}

// --- fitting ----------------------------------------------------------------------

/// Display columns of a text.
pub fn display_width(s: &str) -> (w: usize)
    ensures
        w == str_width(s@),
{
    measure_str(s)
}

/// A text within `budget` display columns: itself where it fits, else cut with
/// a closing ellipsis.
pub open spec fn truncated(text: Seq<char>, budget: usize) -> Seq<char> {
    if str_width(text) <= budget {
        text
    } else {
        ellipsized(CellMeasure::Bare, text, budget as nat)
    }
}

/// Cut a text to at most `budget` display columns.
pub fn truncate_to_columns(text: &str, budget: usize) -> (r: String)
    ensures
        r@ == truncated(text@, budget),
{
    if display_width(text) <= budget {
        return owned(text);
    }
    ellipsize(CellMeasure::Bare, text, budget)
}

/// A segment resolved to its current text.
#[derive(Debug, PartialEq, Eq)]
pub struct ResolvedSegment {
    pub kind: SegmentKind,
    pub text: String,
}

/// A resolved segment, with its text as characters.
pub struct ResolvedSegmentView {
    pub kind: SegmentKind,
    pub text: Seq<char>,
}

impl View for ResolvedSegment {
    type V = ResolvedSegmentView;

    open spec fn view(&self) -> ResolvedSegmentView {
        ResolvedSegmentView { kind: self.kind, text: self.text@ }
    }
}

/// The texts of the segments, joined.
pub open spec fn joined(segs: Seq<ResolvedSegmentView>) -> Seq<char>
    decreases segs.len(),
{
    if segs.len() == 0 {
        Seq::empty()
    } else {
        joined(segs.drop_last()) + segs.last().text
    }
}

/// The first place that stays when the segment at `i` goes: a separator that
/// would then lead goes too, unless it is all that is left.
pub open spec fn next_cut(segs: Seq<ResolvedSegmentView>, i: int) -> int {
    if i + 2 < segs.len() && segs[i + 1].kind is Literal {
        i + 2
    } else {
        i + 1
    }
}

/// Where the fitted segments start when those before `i` are gone already:
/// segments go from the left until the rest fits or one is left.
pub open spec fn cut_from(segs: Seq<ResolvedSegmentView>, i: int, budget: usize) -> int
    decreases segs.len() - i,
{
    if 0 <= i && i + 1 < segs.len() && str_width(joined(segs.skip(i))) > budget {
        cut_from(segs, next_cut(segs, i), budget)
    } else {
        i
    }
}

/// The segments as one line within `budget` columns.
pub open spec fn fitted(segs: Seq<ResolvedSegmentView>, budget: usize) -> Seq<char> {
    truncated(joined(segs.skip(cut_from(segs, 0, budget))), budget)
}

fn joined_from(segs: &[ResolvedSegment], from: usize) -> (r: String)
    requires
        from <= segs@.len(),
    ensures
        r@ == joined(views(segs@).skip(from as int)),
{
    let ghost rest = views(segs@).skip(from as int);
    let mut line = String::new();
    let mut i: usize = from;
    assert(line@ =~= joined(rest.take(0)));
    while i < segs.len()
        invariant
            from <= i <= segs@.len(),
            rest == views(segs@).skip(from as int),
            line@ == joined(rest.take(i - from)),
        decreases segs@.len() - i,
    {
        push_text(&mut line, segs[i].text.as_str());
        i = i + 1;
        assert(rest.take(i - from).drop_last() =~= rest.take(i - from - 1));
        assert(rest.take(i - from).last() == segs@[i - 1]@);
    }
    assert(rest.take(i - from) =~= rest);
    line
}

/// Fit resolved segments into `budget` display columns: whole segments go from
/// the left, and a last one that is still too wide is cut.
pub fn fit_segments(resolved: &[ResolvedSegment], budget: usize) -> (r: String)
    ensures
        r@ == fitted(views(resolved@), budget),
{
    let ghost segs = views(resolved@);
    let total: usize = resolved.len();
    let mut cut: usize = 0;
    let mut line = joined_from(resolved, 0);
    while total - cut > 1 && display_width(line.as_str()) > budget
        invariant
            total == resolved@.len(),
            segs == views(resolved@),
            cut <= total,
            line@ == joined(segs.skip(cut as int)),
            cut_from(segs, 0, budget) == cut_from(segs, cut as int, budget),
        decreases total - cut,
    {
        let drops_separator = total - cut > 2 && matches!(
            resolved[cut + 1].kind,
            SegmentKind::Literal
        );
        assert(cut + 2 < total ==> segs[cut + 1].kind == resolved@[cut + 1].kind);
        cut = if drops_separator {
            cut + 2
        } else {
            cut + 1
        };
        line = joined_from(resolved, cut);
    }
    truncate_to_columns(line.as_str(), budget)
}

// --- the strip ----------------------------------------------------------------------

/// What a segment shows.
pub open spec fn segment_shows(strip: StripView, segment: SegmentView) -> ResolvedSegmentView {
    match segment {
        SegmentView::Literal(text) => ResolvedSegmentView { kind: SegmentKind::Literal, text },
        SegmentView::Clock(fmt) => ResolvedSegmentView {
            kind: SegmentKind::Content,
            text: strip.clock_cached(fmt),
        },
        SegmentView::Command(command) => ResolvedSegmentView {
            kind: SegmentKind::Content,
            text: strip.command_cached(command),
        },
        _ => ResolvedSegmentView { kind: SegmentKind::Content, text: Seq::empty() },
    }
}

/// Every segment resolved.
pub open spec fn resolved(strip: StripView) -> Seq<ResolvedSegmentView> {
    Seq::new(strip.segments.len(), |i: int| segment_shows(strip, strip.segments[i]))
}

/// What the strip shows within `available` columns.
pub open spec fn rendered(strip: StripView, available: usize) -> Seq<char> {
    if !strip.enabled() {
        Seq::empty()
    } else if strip.budget <= available {
        fitted(resolved(strip), strip.budget)
    } else {
        fitted(resolved(strip), available)
    }
}

/// The value that a command's raw result puts on display.
pub open spec fn output_text(result: Result<String, String>) -> Option<Seq<char>> {
    match result {
        Ok(output) => if sanitized(output@).len() == 0 {
            None
        } else {
            Some(sanitized(output@))
        },
        Err(_) => None,
    }
}

/// A parsed strip with its caches.
pub struct StatusStripState {
    cache: StripCache,
}

impl View for StatusStripState {
    type V = StripView;

    closed spec fn view(&self) -> StripView {
        self.cache@
    }
}

impl Default for StatusStripState {
    fn default() -> (r: StatusStripState)
        ensures
            r.wf(),
            r@ == StripView::nothing(),
    {
        StatusStripState { cache: StripCache::blank() }
    }
}

impl StatusStripState {
    /// The format holds neither slots nor directives.
    pub closed spec fn wf(&self) -> bool {
        &&& self.cache.wf()
        &&& forall|k: int|
            0 <= k < self.cache@.segments.len() ==> is_basic(#[trigger] self.cache@.segments[k])
    }

    pub fn from_config(cfg: &StatusConfig) -> (r: StatusStripState)
        ensures
            r.wf(),
            r@ == StripView::configured(
                cfg.status_right@,
                cfg.status_right_length,
                cfg.interval_seconds(),
                Syntax::Basic,
                true,
            ),
    {
        proof {
            law_basic_syntax_is_basic(cfg.status_right@);
        }
        StatusStripState { cache: StripCache::from_config(cfg, Syntax::Basic, true) }
    }

    pub fn is_enabled(&self) -> (r: bool)
        ensures
            r == self@.enabled(),
    {
        self.cache.is_enabled()
    }

    pub fn has_clock(&self) -> (r: bool)
        ensures
            r == self@.has_clock(),
    {
        self.cache.has_clock()
    }

    pub fn has_seconds_field(&self) -> (r: bool)
        ensures
            r == self@.has_seconds(),
    {
        self.cache.has_seconds_field()
    }

    /// How often the clock repaints: each second where seconds show, else each
    /// minute.
    pub fn clock_period(&self) -> (r: Option<Duration>)
        ensures
            r == self@.clock_period(),
    {
        self.cache.clock_period()
    }

    pub fn has_commands(&self) -> (r: bool)
        requires
            self.wf(),
        ensures
            r == self@.has_commands(),
    {
        self.cache.has_commands()
    }

    pub fn command_interval(&self) -> (r: Duration)
        ensures
            r == self@.interval,
    {
        self.cache.command_interval()
    }

    /// Format every clock run against `now` and cache the result.
    pub fn refresh_clock(&mut self, now: &ClockTime)
        requires
            old(self).wf(),
        ensures
            final(self).wf(),
            final(self)@ == old(self)@.refreshed(*now),
    {
        self.cache.refresh_clock(now);
    }

    /// Commands due to run.
    pub fn due_commands(&self, now: Instant) -> (r: Vec<String>)
        requires
            self.wf(),
        ensures
            views(r@).no_duplicates(),
            forall|k: Seq<char>| #[trigger] views(r@).contains(k) <==> self@.is_due(k, now),
    {
        self.cache.due_commands(now)
    }

    /// Record that a command was spawned.
    pub fn mark_command_started(&mut self, command: &str, now: Instant)
        requires
            old(self).wf(),
        ensures
            final(self).wf(),
            final(self)@ == old(self)@.started(command@, now),
    {
        self.cache.mark_command_started(command, now);
    }

    /// Apply a finished command. Output that sanitizes to some text replaces
    /// the cached value; empty output and failure keep it. Returns whether the
    /// displayed value changed.
    pub fn apply_command_result(&mut self, command: &str, result: Result<String, String>) -> (changed:
        bool)
        requires
            old(self).wf(),
        ensures
            final(self).wf(),
            final(self)@ == old(self)@.finished(command@, output_text(result)),
            changed == old(self)@.finish_changes(command@, output_text(result)),
    {
        match result {
            Ok(output) => {
                let value = sanitize_command_output(output.as_str());
                if value.as_str().is_empty() {
                    return self.cache.finish_command(command, None);
                }
                self.cache.finish_command(command, Some(value))
            },
            Err(_) => self.cache.finish_command(command, None),
        }
    }

    /// The schedule and value of one command.
    pub fn command_slot(&self, command: &str) -> (r: Option<&CommandSlot>)
        requires
            self.wf(),
        ensures
            match r {
                Some(slot) => self@.commands.dom().contains(command@) && slot@
                    == self@.commands[command@],
                None => !self@.commands.dom().contains(command@),
            },
    {
        self.cache.command_slot(command)
    }

    pub fn resolve(&self) -> (r: Vec<ResolvedSegment>)
        requires
            self.wf(),
        ensures
            views(r@) == resolved(self@),
    {
        let mut out: Vec<ResolvedSegment> = Vec::new();
        let total: usize = self.cache.segment_count();
        let mut i: usize = 0;
        while i < total
            invariant
                self.wf(),
                i <= total,
                total == self@.segments.len(),
                out@.len() == i,
                forall|k: int|
                    0 <= k < i ==> #[trigger] views(out@)[k] == segment_shows(
                        self@,
                        self@.segments[k],
                    ),
            decreases total - i,
        {
            let seg = match self.cache.segment_at(i) {
                Segment::Literal(text) => ResolvedSegment {
                    kind: SegmentKind::Literal,
                    text: text.clone(),
                },
                Segment::Clock(fmt) => ResolvedSegment {
                    kind: SegmentKind::Content,
                    text: self.cache.clock_value(fmt.as_str()),
                },
                Segment::Command(command) => ResolvedSegment {
                    kind: SegmentKind::Content,
                    text: self.cache.command_value(command.as_str()),
                },
                _ => ResolvedSegment { kind: SegmentKind::Content, text: String::new() },
            };
            proof {
                lemma_views_push(out@, seg);
            }
            out.push(seg);
            i = i + 1;
        }
        assert(views(out@) =~= resolved(self@));
        out
    }

    /// The strip as one line within `available_width` columns. Reads cached
    /// values only.
    pub fn render_line(&self, available_width: usize) -> (r: String)
        requires
            self.wf(),
        ensures
            r@ == rendered(self@, available_width),
    {
        if !self.is_enabled() {
            return String::new();
        }
        let own: usize = self.cache.column_budget();
        let budget: usize = if own <= available_width {
            own
        } else {
            available_width
        };
        fit_segments(self.resolve().as_slice(), budget)
    }
}

// --- laws ---------------------------------------------------------------------------

/// Sanitized output is one line of plain text: no control character, no blank
/// space at its ends, and of bounded length.
pub proof fn law_sanitized_is_plain(raw: Seq<char>)
    ensures
        sanitized(raw).len() <= MAX_SEGMENT_CHARS,
        forall|i: int| 0 <= i < sanitized(raw).len() ==> !control(#[trigger] sanitized(raw)[i]),
        sanitized(raw).len() > 0 ==> !whitespace(sanitized(raw).first()) && !whitespace(
            sanitized(raw).last(),
        ),
{
    let line = raw.take(find_from(raw, '\n', 0));
    let kept = at_most(printable(line), MAX_SEGMENT_CHARS as nat);
    lemma_printable_has_no_control(line);
    lemma_trimmed_ends(kept);
    lemma_trimmed_is_part(kept);
}

spec fn has_no_control(s: Seq<char>) -> bool {
    forall|i: int| 0 <= i < s.len() ==> !control(#[trigger] s[i])
}

proof fn lemma_printable_has_no_control(s: Seq<char>)
    ensures
        has_no_control(printable(s)),
    decreases s.len(),
{
    reveal(Seq::filter);
    if s.len() > 0 {
        lemma_printable_has_no_control(s.drop_last());
    }
}

proof fn lemma_printable_keeps(s: Seq<char>)
    requires
        has_no_control(s),
    ensures
        printable(s) == s,
    decreases s.len(),
{
    reveal(Seq::filter);
    if s.len() > 0 {
        assert(!control(s.last()));
        lemma_printable_keeps(s.drop_last());
        assert(s.drop_last().push(s.last()) =~= s);
    }
}

proof fn lemma_trimmed_is_part(s: Seq<char>)
    requires
        has_no_control(s),
    ensures
        has_no_control(trimmed(s)),
{
    lemma_trim_start_is_part(s);
    lemma_trim_end_is_part(trim_start(s));
}

proof fn lemma_trim_start_is_part(s: Seq<char>)
    requires
        has_no_control(s),
    ensures
        has_no_control(trim_start(s)),
    decreases s.len(),
{
    if s.len() > 0 && whitespace(s.first()) {
        lemma_trim_start_is_part(s.drop_first());
    }
}

proof fn lemma_trim_end_is_part(s: Seq<char>)
    requires
        has_no_control(s),
    ensures
        has_no_control(trim_end(s)),
    decreases s.len(),
{
    if s.len() > 0 && whitespace(s.last()) {
        lemma_trim_end_is_part(s.drop_last());
    }
}

proof fn lemma_no_line_break(s: Seq<char>, i: int)
    requires
        0 <= i,
        has_no_control(s),
    ensures
        find_from(s, '\n', i) == s.len(),
    decreases s.len() - i,
{
    if i < s.len() {
        assert(!control(s[i]));
        lemma_no_line_break(s, i + 1);
    }
}

/// Sanitizing what is sanitized changes nothing.
pub proof fn law_sanitizing_is_idempotent(raw: Seq<char>)
    ensures
        sanitized(sanitized(raw)) == sanitized(raw),
{
    let clean = sanitized(raw);
    law_sanitized_is_plain(raw);
    assert(has_no_control(clean));
    lemma_no_line_break(clean, 0);
    assert(clean.take(clean.len() as int) =~= clean);
    lemma_printable_keeps(clean);
    let line = raw.take(find_from(raw, '\n', 0));
    lemma_trimmed_idempotent(at_most(printable(line), MAX_SEGMENT_CHARS as nat));
}

/// Fitting keeps the right end: the line is the joined text of the last
/// segments, cut only where one segment is left.
pub proof fn law_fitting_keeps_the_right_end(segs: Seq<ResolvedSegmentView>, budget: usize)
    ensures
        0 <= cut_from(segs, 0, budget) <= segs.len(),
        segs.len() > 0 ==> cut_from(segs, 0, budget) < segs.len(),
        str_width(joined(segs)) <= budget ==> fitted(segs, budget) == joined(segs),
        fitted(segs, budget) != joined(segs.skip(cut_from(segs, 0, budget))) ==> segs.len()
            - cut_from(segs, 0, budget) <= 1,
{
    lemma_cut(segs, 0, budget);
    assert(segs.skip(0) =~= segs);
}

/// The line fits its budget: by its display columns where it is not cut, and by
/// the columns of its characters, with one for the ellipsis, where it is.
pub proof fn law_fitted_line_fits(segs: Seq<ResolvedSegmentView>, budget: usize)
    ensures
        ({
            let line = joined(segs.skip(cut_from(segs, 0, budget)));
            let kept = kept_before_ellipsis(CellMeasure::Bare, line, budget as nat);
            if str_width(line) <= budget {
                fitted(segs, budget) == line
            } else if budget == 0 {
                fitted(segs, budget).len() == 0
            } else {
                &&& fitted(segs, budget) == kept.push('\u{2026}')
                &&& kept.is_prefix_of(line)
                &&& cells_width(CellMeasure::Bare, kept) + 1 <= budget
            }
        }),
{
    let line = joined(segs.skip(cut_from(segs, 0, budget)));
    if str_width(line) > budget && budget > 0 {
        let kept = kept_before_ellipsis(CellMeasure::Bare, line, budget as nat);
        lemma_fitting_prefix(CellMeasure::Bare, line, (budget - 1) as nat);
        assert(kept =~= line.subrange(0, kept.len() as int));
    }
}

proof fn lemma_cut(segs: Seq<ResolvedSegmentView>, i: int, budget: usize)
    requires
        0 <= i <= segs.len(),
    ensures
        i <= cut_from(segs, i, budget) <= segs.len(),
        i < segs.len() ==> cut_from(segs, i, budget) < segs.len(),
        segs.len() - cut_from(segs, i, budget) <= 1 || str_width(
            joined(segs.skip(cut_from(segs, i, budget))),
        ) <= budget,
        str_width(joined(segs.skip(i))) <= budget ==> cut_from(segs, i, budget) == i,
    decreases segs.len() - i,
{
    if i + 1 < segs.len() && str_width(joined(segs.skip(i))) > budget {
        lemma_cut(segs, next_cut(segs, i), budget);
    }
}

/// After segments went, a separator leads only where it is all that is left or
/// where another separator stood right before it.
pub proof fn law_no_separator_leads(segs: Seq<ResolvedSegmentView>, budget: usize)
    requires
        segs.len() > 0,
        str_width(joined(segs)) > budget,
    ensures
        ({
            let cut = cut_from(segs, 0, budget);
            segs[cut].kind is Content || cut == segs.len() - 1 || segs[cut - 1].kind is Literal
        }),
{
    assert(segs.skip(0) =~= segs);
    if segs.len() > 1 {
        lemma_cut_leads(segs, 0, budget);
    }
}

proof fn lemma_cut_leads(segs: Seq<ResolvedSegmentView>, i: int, budget: usize)
    requires
        0 <= i,
        i + 1 < segs.len(),
        str_width(joined(segs.skip(i))) > budget,
    ensures
        ({
            let cut = cut_from(segs, i, budget);
            segs[cut].kind is Content || cut == segs.len() - 1 || segs[cut - 1].kind is Literal
        }),
    decreases segs.len() - i,
{
    let next = next_cut(segs, i);
    assert(cut_from(segs, i, budget) == cut_from(segs, next, budget));
    if next + 1 < segs.len() && str_width(joined(segs.skip(next))) > budget {
        lemma_cut_leads(segs, next, budget);
    } else {
        assert(cut_from(segs, next, budget) == next);
    }
}

/// Plain text comes back as it is: at most 256 characters, no control character
/// among them, and no blank space at the ends.
pub proof fn law_plain_output_is_kept(text: Seq<char>)
    requires
        text.len() <= 256,
        forall|i: int|
            0 <= i < text.len() ==> (#[trigger] text[i]) as int >= 0x20 && !(0x7f
                <= text[i] as int <= 0x9f),
        text.len() > 0 ==> !whitespace(text.first()) && !whitespace(text.last()),
    ensures
        sanitized(text) == text,
{
    assert(has_no_control(text));
    lemma_no_line_break(text, 0);
    assert(text.take(text.len() as int) =~= text);
    lemma_printable_keeps(text);
}

/// `at` lists the places of the characters of `s` that are no control characters,
/// all of them and in order.
pub open spec fn are_printable_places(s: Seq<char>, at: Seq<int>) -> bool {
    &&& forall|k: int|
        0 <= k < at.len() ==> 0 <= #[trigger] at[k] < s.len() && !control(s[at[k]])
    &&& forall|k: int, l: int| 0 <= k < l < at.len() ==> #[trigger] at[k] < #[trigger] at[l]
    &&& forall|i: int| 0 <= i < s.len() && !control(#[trigger] s[i]) ==> at.contains(i)
}

proof fn lemma_printable_places(s: Seq<char>) -> (at: Seq<int>)
    ensures
        are_printable_places(s, at),
        printable(s) == Seq::new(at.len(), |k: int| s[at[k]]),
    decreases s.len(),
{
    reveal(Seq::filter);
    if s.len() == 0 {
        let at = Seq::<int>::empty();
        assert(printable(s) =~= Seq::new(at.len(), |k: int| s[at[k]]));
        at
    } else {
        let less = s.drop_last();
        let front = lemma_printable_places(less);
        let last = s.len() - 1;
        let at = if control(s.last()) {
            front
        } else {
            front.push(last)
        };
        assert forall|i: int| 0 <= i < s.len() && !control(#[trigger] s[i]) implies at.contains(
            i,
        ) by {
            if i < last {
                assert(less[i] == s[i]);
                let k = choose|k: int| 0 <= k < front.len() && front[k] == i;
                assert(at[k] == i);
            } else {
                assert(at[front.len() as int] == i);
            }
        }
        assert forall|k: int| 0 <= k < at.len() implies 0 <= #[trigger] at[k] < s.len()
            && !control(s[at[k]]) by {
            if k < front.len() {
                assert(at[k] == front[k]);
                assert(less[front[k]] == s[front[k]]);
            }
        }
        assert forall|k: int, l: int| 0 <= k < l < at.len() implies #[trigger] at[k]
            < #[trigger] at[l] by {
            assert(at[k] == front[k]);
            if l < front.len() {
                assert(at[l] == front[l]);
            }
        }
        assert(printable(s) =~= Seq::new(at.len(), |k: int| s[at[k]]));
        at
    }
}

/// The first line of a text.
pub open spec fn is_first_line(raw: Seq<char>, line: Seq<char>) -> bool {
    &&& line.is_prefix_of(raw)
    &&& forall|i: int| 0 <= i < line.len() ==> (#[trigger] line[i]) != '\n'
    &&& line.len() < raw.len() ==> raw[line.len() as int] == '\n'
}

/// Sanitized output is a run of the characters of the first line that are no
/// control characters, each as it was: what is missing at its ends is blank space,
/// or comes after the first 256 characters.
pub proof fn law_sanitized_is_part_of_the_first_line(raw: Seq<char>, line: Seq<char>)
    requires
        is_first_line(raw, line),
    ensures
        exists|at: Seq<int>, from: int, to: int|
            #![trigger at.subrange(from, to)]
            {
                &&& are_printable_places(line, at)
                &&& 0 <= from <= to <= at.len()
                &&& to <= 256
                &&& sanitized(raw) == at.subrange(from, to).map_values(|i: int| line[i])
                &&& forall|k: int| 0 <= k < from ==> whitespace(line[#[trigger] at[k]])
                &&& forall|k: int|
                    to <= k < at.len() && k < 256 ==> whitespace(line[#[trigger] at[k]])
            },
{
    lemma_first_line(raw, line);
    let at = lemma_printable_places(line);
    let shown = printable(line);
    let kept = at_most(shown, MAX_SEGMENT_CHARS as nat);
    let (from, to) = law_trimming_takes_blank_space_only(kept);
    assert forall|k: int| 0 <= k < kept.len() implies #[trigger] kept[k] == line[at[k]] by {
        assert(kept[k] == shown[k]);
    }
    assert forall|k: int| 0 <= k < from implies whitespace(line[#[trigger] at[k]]) by {
        assert(whitespace(kept[k]));
    }
    assert forall|k: int| to <= k < at.len() && k < 256 implies whitespace(
        line[#[trigger] at[k]],
    ) by {
        assert(whitespace(kept[k]));
    }
    assert(sanitized(raw) =~= at.subrange(from, to).map_values(|i: int| line[i]));
}

proof fn lemma_first_line(raw: Seq<char>, line: Seq<char>)
    requires
        is_first_line(raw, line),
    ensures
        find_from(raw, '\n', 0) == line.len(),
        raw.take(line.len() as int) == line,
{
    assert forall|i: int| 0 <= i < line.len() implies (#[trigger] raw[i]) != '\n' by {
        assert(raw[i] == line[i]);
    }
    lemma_line_break_at(raw, 0, line.len() as int);
    assert(raw.take(line.len() as int) =~= line);
}

proof fn lemma_line_break_at(s: Seq<char>, i: int, at: int)
    requires
        0 <= i <= at <= s.len(),
        at < s.len() ==> s[at] == '\n',
        forall|k: int| i <= k < at ==> (#[trigger] s[k]) != '\n',
    ensures
        find_from(s, '\n', i) == at,
    decreases at - i,
{
    if i < at {
        assert(s[i] != '\n');
        lemma_line_break_at(s, i + 1, at);
    }
}

/// Only the first line of an output counts.
pub proof fn law_later_lines_make_no_difference(line: Seq<char>, rest: Seq<char>)
    requires
        forall|i: int| 0 <= i < line.len() ==> (#[trigger] line[i]) != '\n',
    ensures
        sanitized(line + seq!['\n'] + rest) == sanitized(line),
{
    let raw = line + seq!['\n'] + rest;
    assert(line =~= raw.subrange(0, line.len() as int));
    assert(line =~= line.subrange(0, line.len() as int));
    lemma_first_line(raw, line);
    lemma_first_line(line, line);
}

/// A control character in an output leaves no trace: the output without it gives
/// the same text.
pub proof fn law_control_characters_leave_no_trace(a: Seq<char>, c: char, b: Seq<char>)
    requires
        (c as int) < 0x20 || 0x7f <= c as int <= 0x9f,
        forall|i: int| 0 <= i < a.len() ==> (#[trigger] a[i]) != '\n',
        forall|i: int| 0 <= i < b.len() ==> (#[trigger] b[i]) != '\n',
        c != '\n',
    ensures
        sanitized(a + seq![c] + b) == sanitized(a + b),
{
    let with = a + seq![c] + b;
    let without = a + b;
    assert(with =~= with.subrange(0, with.len() as int));
    assert(without =~= without.subrange(0, without.len() as int));
    lemma_first_line(with, with);
    lemma_first_line(without, without);
    lemma_printable_joins(a + seq![c], b);
    lemma_printable_joins(a, seq![c]);
    lemma_printable_joins(a, b);
    reveal(Seq::filter);
    assert(seq![c].drop_last() =~= Seq::<char>::empty());
    assert(printable(Seq::<char>::empty()) =~= Seq::<char>::empty());
    assert(seq![c].last() == c);
    assert(printable(seq![c]) == Seq::<char>::empty());
    assert(printable(a) + Seq::<char>::empty() =~= printable(a));
}

proof fn lemma_printable_joins(a: Seq<char>, b: Seq<char>)
    ensures
        printable(a + b) == printable(a) + printable(b),
    decreases b.len(),
{
    reveal(Seq::filter);
    if b.len() == 0 {
        assert(a + b =~= a);
        assert(printable(a) + printable(b) =~= printable(a));
    } else {
        lemma_printable_joins(a, b.drop_last());
        assert((a + b).drop_last() =~= a + b.drop_last());
        assert((a + b).last() == b.last());
        assert(printable(a + b) =~= printable(a) + printable(b));
    }
}

/// The output of a command is what its segment shows: plain text as it is, where
/// the command succeeded; a failure, or an output of which nothing is left, keeps
/// what was shown before.
pub proof fn law_output_is_shown(strip: StripView, command: Seq<char>, output: String, reason: String)
    requires
        strip.commands.dom().contains(command),
    ensures
        strip.finished(command, output_text(Err(reason))).command_cached(command)
            == strip.command_cached(command),
        sanitized(output@).len() == 0 ==> strip.finished(
            command,
            output_text(Ok(output)),
        ).command_cached(command) == strip.command_cached(command),
        sanitized(output@).len() > 0 ==> strip.finished(
            command,
            output_text(Ok(output)),
        ).command_cached(command) == sanitized(output@),
{
}

/// Each segment shows its own text: a literal what it says, a clock run its text
/// at the last refresh, a command its last output. Only literals separate.
pub proof fn law_segments_show_their_own_text(strip: StripView, i: int)
    requires
        0 <= i < strip.segments.len(),
    ensures
        resolved(strip).len() == strip.segments.len(),
        match strip.segments[i] {
            SegmentView::Literal(text) => resolved(strip)[i].text == text && resolved(
                strip,
            )[i].kind is Literal,
            SegmentView::Clock(fmt) => resolved(strip)[i].kind is Content && (
            strip.clock_texts.dom().contains(fmt) ==> resolved(strip)[i].text
                == strip.clock_texts[fmt]),
            SegmentView::Command(command) => resolved(strip)[i].kind is Content && (
            strip.commands.dom().contains(command) && strip.commands[command].last_value is Some
                ==> resolved(strip)[i].text == strip.commands[command].last_value->0),
            _ => resolved(strip)[i].text.len() == 0,
        },
{
}

/// The texts stand one behind the other, without anything between.
pub proof fn law_texts_are_joined(segs: Seq<ResolvedSegmentView>, last: ResolvedSegmentView)
    ensures
        joined(Seq::empty()) == Seq::<char>::empty(),
        joined(segs.push(last)) == joined(segs) + last.text,
{
    assert(segs.push(last).drop_last() =~= segs);
}

/// The whole line is shown where it fits both its own budget and the columns there
/// are; the smaller of the two decides what is cut. A disabled strip shows nothing.
pub proof fn law_line_is_shown_where_it_fits(strip: StripView, available: usize)
    ensures
        trimmed(strip.raw).len() == 0 || strip.budget == 0 ==> rendered(strip, available).len()
            == 0,
        trimmed(strip.raw).len() > 0 && strip.budget > 0 ==> {
            let room = if strip.budget < available {
                strip.budget
            } else {
                available
            };
            let line = joined(resolved(strip));
            &&& str_width(line) <= room ==> rendered(strip, available) == line
            &&& rendered(strip, available) == fitted(resolved(strip), room)
        },
{
    law_fitting_keeps_the_right_end(resolved(strip), strip.budget);
    law_fitting_keeps_the_right_end(resolved(strip), available);
}

/// A failure names the exit code, with its sign, or says that there was none.
pub proof fn law_failures_name_the_code(n: i32)
    ensures
        failure_text(None) == "exit status None"@,
        n >= 0 ==> failure_text(Some(n)) == "exit status Some("@ + decimal(n as nat) + seq![')'],
        n < 0 ==> failure_text(Some(n)) == "exit status Some("@ + (seq!['-'] + decimal(
            (-n) as nat,
        )) + seq![')'],
{
    reveal_strlit(")");
    assert(")"@ =~= seq![')']);
    if n < 0 {
        law_signed_numbers((-n) as nat);
    } else {
        law_signed_numbers(n as nat);
    }
}

/// No more goes than has to: where the line from a segment on fits, that segment stays,
/// unless it only separates.
pub proof fn law_no_segment_goes_that_fits(segs: Seq<ResolvedSegmentView>, budget: usize, i: int)
    requires
        0 <= i < segs.len(),
        !(segs[i].kind is Literal),
        str_width(joined(segs.skip(i))) <= budget,
    ensures
        cut_from(segs, 0, budget) <= i,
{
    lemma_cut_stops(segs, 0, budget, i);
}

proof fn lemma_cut_stops(segs: Seq<ResolvedSegmentView>, at: int, budget: usize, i: int)
    requires
        0 <= at <= i < segs.len(),
        !(segs[i].kind is Literal),
        str_width(joined(segs.skip(i))) <= budget,
    ensures
        cut_from(segs, at, budget) <= i,
    decreases i - at,
{
    if at < i && str_width(joined(segs.skip(at))) > budget {
        lemma_cut_stops(segs, next_cut(segs, at), budget, i);
    }
}

/// Only a command that succeeded hands its output back, and all of it; one that did
/// not hands back none of it, whatever it wrote.
pub proof fn law_only_success_has_output(exit: CommandExit, a: Seq<char>, b: Seq<char>)
    ensures
        outcome_of(exit, a) is Ok <==> exit is Success,
        exit is Success ==> outcome_of(exit, a)->Ok_0 == a,
        !(exit is Success) ==> outcome_of(exit, a) == outcome_of(exit, b),
        exit matches CommandExit::NotRun(reason) ==> outcome_of(exit, a)->Err_0 == reason@,
        exit matches CommandExit::Failure(code) ==> outcome_of(exit, a)->Err_0 == failure_text(
            code,
        ),
{
}

} // verus!
