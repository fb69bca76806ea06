//! The content of the right status strip: what each segment of `status_right`
//! resolves to, when its commands run and when its clock repaints.
//!
//! Palette resolution and width fitting are the client's: both depend on the
//! client's theme and terminal.

use vstd::prelude::*;

use crate::app::slots::{SlotStore, SlotStoreView};
use crate::app::{App, AppView};
use crate::clock::{clock_text, ClockTime};
use crate::format::{parse_format, segments_of, Segment, SegmentView, StyleSpec, StyleSpecView, Syntax};
use crate::lists::reversed;
use crate::strip::{CommandSlot, CommandSlotView, StatusConfig, StripCache, StripView};
use crate::text::{lemma_views_empty, lemma_views_push, opt_text, push_text, same_text, views};
use crate::time::{Duration, Instant};

verus! {

/// How long a command may run before it is killed, in seconds.
pub const STATUS_COMMAND_TIMEOUT_SECS: u64 = 2;

/// Parse a `status_right` format string without executing anything. Malformed
/// tokens become literal text.
pub fn parse_status_right(input: &str) -> (r: Vec<Segment>)
    ensures
        views(r@) == segments_of(input@, Syntax::Extended),
{
    parse_format(input, Syntax::Extended)
}

/// Whether a resolved segment carries content or separates it.
#[derive(Debug, Clone, Copy, PartialEq, Eq, Structural)]
pub enum SegmentKind {
    Literal,
    Content,
}

/// A segment resolved to its text, with the style in force at its place in the
/// directive stream.
#[derive(Debug, PartialEq, Eq)]
pub struct ResolvedSegment {
    pub kind: SegmentKind,
    pub text: String,
    pub style: StyleSpec,
}

/// A resolved segment, with its text as characters.
pub struct ResolvedSegmentView {
    pub kind: SegmentKind,
    pub text: Seq<char>,
    pub style: StyleSpecView,
}

impl View for ResolvedSegment {
    type V = ResolvedSegmentView;

    open spec fn view(&self) -> ResolvedSegmentView {
        ResolvedSegmentView { kind: self.kind, text: self.text@, style: self.style@ }
    }
}

impl Clone for ResolvedSegment {
    fn clone(&self) -> (r: ResolvedSegment)
        ensures
            r == *self,
    {
        ResolvedSegment { kind: self.kind, text: self.text.clone(), style: self.style.clone() }
    }
}

impl ResolvedSegmentView {
    /// Content that has no text.
    pub open spec fn blank(self) -> bool {
        self.kind is Content && self.text.len() == 0
    }

    /// Content that has text.
    pub open spec fn filled(self) -> bool {
        self.kind is Content && self.text.len() > 0
    }
}

// --- separators -------------------------------------------------------------

/// `out` followed by `rest` without its blank content. Each blank segment takes
/// one separator with it: the one that follows it, else the one before it.
pub open spec fn compacted_onto(
    out: Seq<ResolvedSegmentView>,
    rest: Seq<ResolvedSegmentView>,
) -> Seq<ResolvedSegmentView>
    decreases rest.len(),
{
    if rest.len() == 0 {
        out
    } else if !rest[0].blank() {
        compacted_onto(out.push(rest[0]), rest.skip(1))
    } else if rest.len() > 1 && rest[1].kind is Literal {
        compacted_onto(out, rest.skip(2))
    } else if out.len() > 0 && out.last().kind is Literal {
        compacted_onto(out.drop_last(), rest.skip(1))
    } else {
        compacted_onto(out, rest.skip(1))
    }
}

/// The segments without blank content and the separators that go with it.
pub open spec fn compacted(segs: Seq<ResolvedSegmentView>) -> Seq<ResolvedSegmentView> {
    compacted_onto(Seq::empty(), segs)
}

/// Drop the segments that resolved to nothing, each with one adjacent
/// separator, so that nothing dangles. The following separator goes first; the
/// preceding one goes with a trailing blank.
pub fn drop_empty_segments(segs: Vec<ResolvedSegment>) -> (r: Vec<ResolvedSegment>)
    ensures
        views(r@) == compacted(views(segs@)),
{
    let ghost all = views(segs@);
    // The segments still to come, last one first.
    let mut stack = reversed(segs);
    assert(views(stack@).reverse() =~= all);
    let mut out: Vec<ResolvedSegment> = Vec::new();
    proof {
        lemma_views_empty::<ResolvedSegment>();
    }
    while stack.len() > 0
        invariant
            compacted(all) == compacted_onto(views(out@), views(stack@).reverse()),
        decreases stack@.len(),
    {
        let ghost rest = views(stack@).reverse();
        match stack.pop() {
            Some(seg) => {
                proof {
                    assert(seg@ == rest[0]);
                    assert(views(stack@).reverse() =~= rest.skip(1));
                }
                if matches!(seg.kind, SegmentKind::Content) && seg.text.as_str().is_empty() {
                    let last: usize = stack.len();
                    if last > 0 && matches!(stack[last - 1].kind, SegmentKind::Literal) {
                        assert(rest[1] == stack@[last - 1]@);
                        stack.pop();
                        assert(views(stack@).reverse() =~= rest.skip(2));
                    } else {
                        assert(last > 0 ==> rest[1] == stack@[last - 1]@);
                        let kept: usize = out.len();
                        if kept > 0 && matches!(out[kept - 1].kind, SegmentKind::Literal) {
                            let ghost held = out@;
                            out.pop();
                            assert(views(out@) =~= views(held).drop_last());
                        }
                    }
                } else {
                    proof {
                        lemma_views_push(out@, seg);
                    }
                    out.push(seg);
                }
            },
            None => {},
        }
    }
    assert(views(stack@).reverse() =~= Seq::<ResolvedSegmentView>::empty());
    out
}

// --- the strip ----------------------------------------------------------------

/// The style in force before segment `n`.
pub open spec fn style_before(segments: Seq<SegmentView>, n: int) -> StyleSpecView
    decreases n,
{
    if n <= 0 {
        StyleSpecView::base()
    } else {
        match segments[n - 1] {
            SegmentView::Style(spec) => spec.folded_onto(style_before(segments, n - 1)),
            _ => style_before(segments, n - 1),
        }
    }
}

/// What a segment shows, unless it is a directive.
pub open spec fn segment_shows(
    strip: StripView,
    slots: SlotStoreView,
    now: Instant,
    segment: SegmentView,
) -> Option<(SegmentKind, Seq<char>)> {
    match segment {
        SegmentView::Literal(text) => Some((SegmentKind::Literal, text)),
        SegmentView::Clock(fmt) => Some((SegmentKind::Content, strip.clock_cached(fmt))),
        SegmentView::Command(command) => Some(
            (SegmentKind::Content, strip.command_cached(command)),
        ),
        SegmentView::Slot(name) => Some(
            (
                SegmentKind::Content,
                match slots.shown(name, now) {
                    Some(text) => text,
                    None => Seq::empty(),
                },
            ),
        ),
        SegmentView::Style(_) => None,
    }
}

/// The first `n` segments resolved.
pub open spec fn resolved_first(
    strip: StripView,
    slots: SlotStoreView,
    now: Instant,
    n: int,
) -> Seq<ResolvedSegmentView>
    decreases n,
{
    if n <= 0 {
        Seq::empty()
    } else {
        let before = resolved_first(strip, slots, now, n - 1);
        match segment_shows(strip, slots, now, strip.segments[n - 1]) {
            Some((kind, text)) => before.push(
                ResolvedSegmentView { kind, text, style: style_before(strip.segments, n - 1) },
            ),
            None => before,
        }
    }
}

/// Every segment resolved; directives show nothing of their own.
pub open spec fn resolved(strip: StripView, slots: SlotStoreView, now: Instant) -> Seq<
    ResolvedSegmentView,
> {
    resolved_first(strip, slots, now, strip.segments.len() as int)
}

/// What the strip displays: nothing while it is disabled.
pub open spec fn displayed(strip: StripView, slots: SlotStoreView, now: Instant) -> Seq<
    ResolvedSegmentView,
> {
    if strip.enabled() {
        compacted(resolved(strip, slots, now))
    } else {
        Seq::empty()
    }
}

/// The texts of the segments, joined.
pub open spec fn joined(segs: Seq<ResolvedSegmentView>) -> Seq<char>
    decreases segs.len(),
{
    if segs.len() == 0 {
        Seq::empty()
    } else {
        joined(segs.drop_last()) + segs.last().text
    }
}

/// The column budget as it goes to the client.
pub open spec fn wire_budget(strip: StripView) -> u16 {
    if !strip.enabled() {
        0
    } else if strip.budget <= u16::MAX {
        strip.budget as u16
    } else {
        u16::MAX
    }
}

/// The format renders this source.
pub open spec fn references(strip: StripView, source: Seq<char>) -> bool {
    strip.enabled() && strip.segments.contains(SegmentView::Slot(source))
}

/// A parsed strip with its caches.
pub struct StatusStripState {
    cache: StripCache,
}

impl View for StatusStripState {
    type V = StripView;

    closed spec fn view(&self) -> StripView {
        self.cache@
    }
}

impl Default for StatusStripState {
    fn default() -> (r: StatusStripState)
        ensures
            r.wf(),
            r@ == StripView::nothing(),
    {
        StatusStripState { cache: StripCache::blank() }
    }
}

impl StatusStripState {
    pub closed spec fn wf(&self) -> bool {
        self.cache.wf()
    }

    /// Build the strip of a configuration. Where commands cannot run none is
    /// registered: it resolves to empty text and drops out of the strip.
    pub fn from_config(cfg: &StatusConfig, commands_supported: bool) -> (r: StatusStripState)
        ensures
            r.wf(),
            r@ == StripView::configured(
                cfg.status_right@,
                cfg.status_right_length,
                cfg.interval_seconds(),
                Syntax::Extended,
                commands_supported,
            ),
    {
        StatusStripState {
            cache: StripCache::from_config(cfg, Syntax::Extended, commands_supported),
        }
    }

    pub fn is_enabled(&self) -> (r: bool)
        ensures
            r == self@.enabled(),
    {
        self.cache.is_enabled()
    }

    /// Whether the format renders `source`. Only a referenced source can change
    /// what is on screen.
    pub fn references_slot(&self, source: &str) -> (r: bool)
        ensures
            r == references(self@, source@),
    {
        if !self.cache.is_enabled() {
            return false;
        }
        let total: usize = self.cache.segment_count();
        let mut i: usize = 0;
        while i < total
            invariant
                i <= total,
                total == self@.segments.len(),
                self@.enabled(),
                forall|k: int|
                    0 <= k < i ==> #[trigger] self@.segments[k] != SegmentView::Slot(source@),
            decreases total - i,
        {
            if let Segment::Slot(name) = self.cache.segment_at(i) {
                if same_text(name.as_str(), source) {
                    assert(self@.segments[i as int] == SegmentView::Slot(source@));
                    return true;
                }
            }
            i = i + 1;
        }
        false
    }

    /// Columns that the client fits the strip into; zero while it is disabled.
    pub fn budget(&self) -> (r: u16)
        ensures
            r == wire_budget(self@),
    {
        if !self.cache.is_enabled() {
            return 0;
        }
        let budget: usize = self.cache.column_budget();
        if budget <= u16::MAX as usize {
            budget as u16
        } else {
            u16::MAX
        }
    }

    pub fn has_clock(&self) -> (r: bool)
        ensures
            r == self@.has_clock(),
    {
        self.cache.has_clock()
    }

    pub fn has_seconds_field(&self) -> (r: bool)
        ensures
            r == self@.has_seconds(),
    {
        self.cache.has_seconds_field()
    }

    /// How often the clock repaints: each second where seconds show, else each
    /// minute.
    pub fn clock_period(&self) -> (r: Option<Duration>)
        ensures
            r == self@.clock_period(),
    {
        self.cache.clock_period()
    }

    /// Format every clock run against `now`. Returns whether a cached text
    /// changed.
    pub fn refresh_clock(&mut self, now: &ClockTime) -> (changed: bool)
        requires
            old(self).wf(),
        ensures
            final(self).wf(),
            final(self)@ == old(self)@.refreshed(*now),
            changed == exists|fmt: Seq<char>| old(self)@.stale_clock(fmt, *now),
    {
        self.cache.refresh_clock(now)
    }

    /// Commands due to run.
    pub fn due_commands(&self, now: Instant) -> (r: Vec<String>)
        requires
            self.wf(),
        ensures
            views(r@).no_duplicates(),
            forall|k: Seq<char>| #[trigger] views(r@).contains(k) <==> self@.is_due(k, now),
    {
        self.cache.due_commands(now)
    }

    /// The earliest instant at which some command becomes due.
    pub fn next_command_deadline(&self, now: Instant) -> (r: Option<Instant>)
        requires
            self.wf(),
        ensures
            self@.is_next_deadline(now, r),
    {
        self.cache.next_command_deadline(now)
    }

    /// Record that a command was spawned.
    pub fn mark_command_started(&mut self, command: &str, now: Instant)
        requires
            old(self).wf(),
        ensures
            final(self).wf(),
            final(self)@ == old(self)@.started(command@, now),
    {
        self.cache.mark_command_started(command, now);
    }

    /// Apply a finished command. A value replaces the cached one; empty output
    /// and failure keep it. Returns whether the displayed value changed.
    pub fn apply_command_result(
        &mut self,
        command: &str,
        result: Result<Option<String>, String>,
    ) -> (changed: bool)
        requires
            old(self).wf(),
        ensures
            final(self).wf(),
            final(self)@ == old(self)@.finished(command@, result_text(result)),
            changed == old(self)@.finish_changes(command@, result_text(result)),
    {
        match result {
            Ok(value) => self.cache.finish_command(command, value),
            Err(_) => self.cache.finish_command(command, None),
        }
    }

    /// The schedule and value of one command.
    pub fn command_slot(&self, command: &str) -> (r: Option<&CommandSlot>)
        requires
            self.wf(),
        ensures
            match r {
                Some(slot) => self@.commands.dom().contains(command@) && slot@
                    == self@.commands[command@],
                None => !self@.commands.dom().contains(command@),
            },
    {
        self.cache.command_slot(command)
    }

    /// Resolve the segments left to right, folding the style in force at each.
    pub fn resolve(&self, slots: &SlotStore, now: Instant) -> (r: Vec<ResolvedSegment>)
        requires
            self.wf(),
            slots.wf(),
        ensures
            views(r@) == resolved(self@, slots@, now),
    {
        let mut current = StyleSpec::default();
        let mut out: Vec<ResolvedSegment> = Vec::new();
        proof {
            lemma_views_empty::<ResolvedSegment>();
        }
        let total: usize = self.cache.segment_count();
        let mut i: usize = 0;
        while i < total
            invariant
                self.wf(),
                slots.wf(),
                i <= total,
                total == self@.segments.len(),
                current@ == style_before(self@.segments, i as int),
                views(out@) == resolved_first(self@, slots@, now, i as int),
            decreases total - i,
        {
            let found: Option<(SegmentKind, String)> = match self.cache.segment_at(i) {
                Segment::Style(spec) => {
                    spec.fold_onto(&mut current);
                    None
                },
                Segment::Literal(text) => Some((SegmentKind::Literal, text.clone())),
                Segment::Clock(fmt) => Some(
                    (SegmentKind::Content, self.cache.clock_value(fmt.as_str())),
                ),
                Segment::Command(command) => Some(
                    (SegmentKind::Content, self.cache.command_value(command.as_str())),
                ),
                Segment::Slot(name) => Some(
                    (SegmentKind::Content, slots.resolve(name.as_str(), now)),
                ),
            };
            match found {
                Some((kind, text)) => {
                    let seg = ResolvedSegment { kind, text, style: current.clone() };
                    proof {
                        lemma_views_push(out@, seg);
                    }
                    out.push(seg);
                },
                None => {},
            }
            i = i + 1;
        }
        out
    }

    /// The segments to draw, in order. Reads cached values only.
    pub fn resolved_segments(&self, slots: &SlotStore, now: Instant) -> (r: Vec<ResolvedSegment>)
        requires
            self.wf(),
            slots.wf(),
        ensures
            views(r@) == displayed(self@, slots@, now),
    {
        if !self.is_enabled() {
            let r: Vec<ResolvedSegment> = Vec::new();
            proof {
                lemma_views_empty::<ResolvedSegment>();
            }
            return r;
        }
        drop_empty_segments(self.resolve(slots, now))
    }

    /// The text to draw as one line.
    pub fn resolved_line(&self, slots: &SlotStore, now: Instant) -> (r: String)
        requires
            self.wf(),
            slots.wf(),
        ensures
            r@ == joined(displayed(self@, slots@, now)),
    {
        let segs = self.resolved_segments(slots, now);
        let ghost all = views(segs@);
        let mut line = String::new();
        let mut i: usize = 0;
        assert(line@ =~= joined(all.take(0)));
        while i < segs.len()
            invariant
                i <= segs@.len(),
                all == views(segs@),
                line@ == joined(all.take(i as int)),
            decreases segs@.len() - i,
        {
            push_text(&mut line, segs[i].text.as_str());
            i = i + 1;
            assert(all.take(i as int).drop_last() =~= all.take(i - 1));
            assert(all.take(i as int).last() == segs@[i - 1]@);
        }
        assert(all.take(i as int) =~= all);
        line
    }
}

/// The text that a command's result puts on display.
pub open spec fn result_text(result: Result<Option<String>, String>) -> Option<Seq<char>> {
    match result {
        Ok(value) => opt_text(value),
        Err(_) => None,
    }
}

// --- the endpoint's tick ----------------------------------------------------------

/// A command to run for the strip, and the configuration it belongs to.
#[derive(Debug)]
pub struct CommandSpawn {
    pub generation: u64,
    pub command: String,
    pub timeout: Duration,
}

/// A command to run, with its text as characters.
pub struct CommandSpawnView {
    pub generation: u64,
    pub command: Seq<char>,
    pub timeout: Duration,
}

impl View for CommandSpawn {
    type V = CommandSpawnView;

    open spec fn view(&self) -> CommandSpawnView {
        CommandSpawnView {
            generation: self.generation,
            command: self.command@,
            timeout: self.timeout,
        }
    }
}

/// What a tick did and what it asks for.
#[derive(Debug)]
pub struct StripTick {
    /// Something on display changed.
    pub changed: bool,
    /// Commands to spawn; each is marked as running already.
    pub spawns: Vec<CommandSpawn>,
}

/// The strip with every due command marked as started.
pub open spec fn all_started(strip: StripView, now: Instant) -> StripView {
    StripView {
        commands: strip.commands.map_entries(
            |k: Seq<char>, slot: CommandSlotView|
                if slot.due(strip.interval, now) {
                    CommandSlotView { in_flight: true, last_run: Some(now), ..slot }
                } else {
                    slot
                },
        ),
        ..strip
    }
}

impl AppView {
    /// The lane is serviced only while somebody watches and the strip shows
    /// something.
    pub open spec fn serviced(self, has_client: bool) -> bool {
        has_client && self.strip.enabled()
    }

    pub open spec fn clock_due(self, now: Instant) -> bool {
        self.next_clock matches Some(deadline) && now.nanos >= deadline.nanos
    }

    /// The endpoint after the clock part of a tick.
    pub open spec fn clock_ticked(self, now: Instant, sampled: Option<ClockTime>) -> AppView {
        if self.clock_due(now) {
            AppView {
                strip: match sampled {
                    Some(t) => self.strip.refreshed(t),
                    None => self.strip,
                },
                next_clock: match self.strip.clock_period() {
                    Some(period) => now.plus(period),
                    None => None,
                },
                ..self
            }
        } else {
            self
        }
    }

    /// The clock part of a tick changes a text on display.
    pub open spec fn clock_changes(self, now: Instant, sampled: Option<ClockTime>) -> bool {
        self.clock_due(now) && (sampled matches Some(t) && exists|fmt: Seq<char>|
            self.strip.stale_clock(fmt, t))
    }

    /// The endpoint after a tick.
    pub open spec fn ticked(self, now: Instant, has_client: bool, sampled: Option<ClockTime>) -> AppView {
        if self.serviced(has_client) {
            let after = self.clock_ticked(now, sampled);
            AppView { strip: all_started(after.strip, now), ..after }
        } else {
            self
        }
    }

    /// What a tick returns: whether a text changed, and each due command once.
    pub open spec fn tick_returns(
        self,
        now: Instant,
        has_client: bool,
        sampled: Option<ClockTime>,
        tick: StripTick,
    ) -> bool {
        let spawns = views(tick.spawns@);
        &&& tick.changed == (self.serviced(has_client) && self.clock_changes(now, sampled))
        &&& !self.serviced(has_client) ==> spawns.len() == 0
        &&& self.serviced(has_client) ==> forall|k: Seq<char>|
            #![trigger self.strip.is_due(k, now)]
            spawns.contains(self.spawn_of(k)) <==> self.strip.is_due(k, now)
        &&& forall|i: int|
            0 <= i < spawns.len() ==> #[trigger] spawns[i] == self.spawn_of(spawns[i].command)
        &&& spawns.no_duplicates()
    }

    /// The request to run a command under the current configuration.
    pub open spec fn spawn_of(self, command: Seq<char>) -> CommandSpawnView {
        CommandSpawnView {
            generation: self.generation,
            command,
            timeout: Duration::secs(STATUS_COMMAND_TIMEOUT_SECS),
        }
    }

    /// The endpoint after a command that was spawned under `generation` finished;
    /// one of an earlier configuration reports to nobody.
    pub open spec fn command_finished(
        self,
        generation: u64,
        command: Seq<char>,
        value: Option<Seq<char>>,
    ) -> AppView {
        if generation == self.generation {
            AppView { strip: self.strip.finished(command, value), ..self }
        } else {
            self
        }
    }

    /// The endpoint under another configuration: the caches start empty, the
    /// clock is due at once, and pushed values stay.
    pub open spec fn reconfigured(self, strip: StripView, now: Instant) -> AppView {
        AppView {
            strip,
            generation: if self.generation == u64::MAX {
                0
            } else {
                (self.generation + 1) as u64
            },
            next_clock: if strip.has_clock() {
                Some(now)
            } else {
                None
            },
            ..self
        }
    }
}

impl App {
    /// Rebuild the strip from its configuration. Results of commands that were
    /// spawned before are discarded from here on.
    pub fn configure_status_strip(
        &mut self,
        config: &StatusConfig,
        commands_supported: bool,
        now: Instant,
    )
        requires
            old(self).wf(),
        ensures
            final(self).wf(),
            final(self)@ == old(self)@.reconfigured(
                StripView::configured(
                    config.status_right@,
                    config.status_right_length,
                    config.interval_seconds(),
                    Syntax::Extended,
                    commands_supported,
                ),
                now,
            ),
    {
        self.status_strip_generation = self.status_strip_generation.wrapping_add(1);
        self.state.status_strip = StatusStripState::from_config(config, commands_supported);
        // Due at once: the strip shows a time on the first tick.
        self.next_status_clock_refresh = match self.state.status_strip.clock_period() {
            Some(_) => Some(now),
            None => None,
        };
    }

    /// The next instant at which the strip needs servicing. Without a client
    /// there is none: nobody watches, so nothing is spawned.
    pub fn next_status_strip_deadline(&self, has_client: bool, now: Instant) -> (r: Option<Instant>)
        requires
            self.wf(),
        ensures
            !self@.serviced(has_client) ==> r is None,
            self@.serviced(has_client) ==> exists|c: Option<Instant>| #[trigger]
                self@.strip.is_next_deadline(now, c) && r == Instant::earliest(
                    c,
                    self@.next_clock,
                ),
    {
        if !has_client || !self.state.status_strip.is_enabled() {
            return None;
        }
        let commands = self.state.status_strip.next_command_deadline(now);
        assert(self@.strip.is_next_deadline(now, commands));
        Instant::min_opt(commands, self.next_status_clock_refresh)
    }

    /// Whether a tick at `now` would sample the clock.
    pub fn status_clock_due(&self, now: Instant) -> (r: bool)
        ensures
            r == self@.clock_due(now),
    {
        match self.next_status_clock_refresh {
            Some(deadline) => now.nanos >= deadline.nanos,
            None => false,
        }
    }

    /// One tick with the local time that was sampled for it: refresh the clock
    /// where it is due, and start every due command.
    pub fn run_status_strip_tasks(
        &mut self,
        now: Instant,
        has_client: bool,
        sampled: Option<ClockTime>,
    ) -> (tick: StripTick)
        requires
            old(self).wf(),
        ensures
            final(self).wf(),
            final(self)@ == old(self)@.ticked(now, has_client, sampled),
            old(self)@.tick_returns(now, has_client, sampled, tick),
    {
        let ghost start = self@;
        let mut spawns: Vec<CommandSpawn> = Vec::new();
        proof {
            lemma_views_empty::<CommandSpawn>();
        }
        if !has_client || !self.state.status_strip.is_enabled() {
            return StripTick { changed: false, spawns };
        }
        let mut changed: bool = false;
        if self.status_clock_due(now) {
            if let Some(t) = &sampled {
                changed = self.state.status_strip.refresh_clock(t);
            }
            self.next_status_clock_refresh = match self.state.status_strip.clock_period() {
                Some(period) => now.checked_add(period),
                None => None,
            };
        }
        let ghost middle = self@;
        let due = self.state.status_strip.due_commands(now);
        let ghost names = views(due@);
        let generation: u64 = self.status_strip_generation;
        let mut i: usize = 0;
        proof {
            assert(middle == start.clock_ticked(now, sampled));
            assert(names.take(0) =~= Seq::<Seq<char>>::empty());
            assert(started_those(middle.strip, names.take(0), now).commands
                =~= middle.strip.commands);
        }
        while i < due.len()
            invariant
                i <= due@.len(),
                names == views(due@),
                names.no_duplicates(),
                generation == start.generation,
                self.wf(),
                self@ == (AppView {
                    strip: started_those(middle.strip, names.take(i as int), now),
                    ..middle
                }),
                views(spawns@).len() == i,
                forall|j: int|
                    0 <= j < i ==> #[trigger] views(spawns@)[j] == start.spawn_of(names[j]),
            decreases due@.len() - i,
        {
            let command = due[i].clone();
            let ghost k = command@;
            self.state.status_strip.mark_command_started(command.as_str(), now);
            let spawn = CommandSpawn {
                generation,
                command,
                timeout: Duration::from_secs(STATUS_COMMAND_TIMEOUT_SECS),
            };
            proof {
                assert(names[i as int] == k);
                assert(names.take(i as int + 1) =~= names.take(i as int).push(k));
                assert(!names.take(i as int).contains(k)) by {
                    if names.take(i as int).contains(k) {
                        let j = choose|j: int| 0 <= j < i && names.take(i as int)[j] == k;
                        assert(names[j] == names[i as int]);
                    }
                }
                lemma_started_push(middle.strip, names.take(i as int), k, now);
                lemma_views_push(spawns@, spawn);
                assert(spawn@ == start.spawn_of(k));
            }
            spawns.push(spawn);
            i = i + 1;
        }
        proof {
            assert(names.take(i as int) =~= names);
            let made = views(spawns@);
            assert forall|k: Seq<char>| names.contains(k) == #[trigger] start.strip.is_due(
                k,
                now,
            ) by {
                assert(start.strip.is_due(k, now) == middle.strip.is_due(k, now));
            }
            assert forall|k: Seq<char>|
                #![trigger start.strip.is_due(k, now)]
                made.contains(start.spawn_of(k)) <==> start.strip.is_due(k, now) by {
                if made.contains(start.spawn_of(k)) {
                    let j = choose|j: int| 0 <= j < made.len() && made[j] == start.spawn_of(k);
                    assert(names[j] == k);
                }
                if names.contains(k) {
                    let j = choose|j: int| 0 <= j < names.len() && names[j] == k;
                    assert(made[j] == start.spawn_of(k));
                }
            }
            assert(made.no_duplicates());
            assert(started_those(middle.strip, names, now).commands =~= all_started(
                middle.strip,
                now,
            ).commands) by {
                assert forall|k: Seq<char>| middle.strip.commands.dom().contains(k) implies (
                names.contains(k) == middle.strip.commands[k].due(middle.strip.interval, now)) by {
                    assert(middle.strip.is_due(k, now) == names.contains(k));
                }
            }
        }
        StripTick { changed, spawns }
    }

    /// One tick: sample the local time where the clock is due, refresh what
    /// shows it, and start every due command. Where the platform has no local
    /// time the cached clock text stays.
    pub fn handle_status_strip_tasks(&mut self, now: Instant, has_client: bool) -> (tick: StripTick)
        requires
            old(self).wf(),
        ensures
            final(self).wf(),
            exists|sampled: Option<ClockTime>| #[trigger]
                old(self)@.tick_returns(now, has_client, sampled, tick) && final(self)@ == old(
                    self,
                )@.ticked(now, has_client, sampled) && (sampled matches Some(t) ==> t.in_range()),
            !old(self)@.clock_due(now) ==> final(self)@ == old(self)@.ticked(
                now,
                has_client,
                None,
            ) && old(self)@.tick_returns(now, has_client, None, tick),
    {
        let sampled = if has_client && self.state.status_strip.is_enabled()
            && self.status_clock_due(now) {
            ClockTime::now_local()
        } else {
            None
        };
        self.run_status_strip_tasks(now, has_client, sampled)
    }

    /// Apply a finished command, unless its configuration was replaced since.
    pub fn handle_status_command_finished(
        &mut self,
        generation: u64,
        command: String,
        result: Result<Option<String>, String>,
    ) -> (changed: bool)
        requires
            old(self).wf(),
        ensures
            final(self).wf(),
            final(self)@ == old(self)@.command_finished(
                generation,
                command@,
                result_text(result),
            ),
            changed == (generation == old(self)@.generation && old(self)@.strip.finish_changes(
                command@,
                result_text(result),
            )),
    {
        if generation != self.status_strip_generation {
            return false;
        }
        self.state.status_strip.apply_command_result(command.as_str(), result)
    }
}

spec fn started_those(strip: StripView, names: Seq<Seq<char>>, now: Instant) -> StripView {
    StripView {
        commands: strip.commands.map_entries(
            |k: Seq<char>, slot: CommandSlotView|
                if names.contains(k) {
                    CommandSlotView { in_flight: true, last_run: Some(now), ..slot }
                } else {
                    slot
                },
        ),
        ..strip
    }
}

proof fn lemma_started_push(strip: StripView, names: Seq<Seq<char>>, k: Seq<char>, now: Instant)
    requires
        !names.contains(k),
    ensures
        started_those(strip, names.push(k), now) == started_those(strip, names, now).started(
            k,
            now,
        ),
{
    let longer = names.push(k);
    assert forall|q: Seq<char>| longer.contains(q) == (names.contains(q) || q == k) by {
        if names.contains(q) {
            let j = choose|j: int| 0 <= j < names.len() && names[j] == q;
            assert(longer[j] == q);
        }
        assert(longer[names.len() as int] == k);
    }
    assert(started_those(strip, longer, now).commands =~= started_those(strip, names, now).started(
        k,
        now,
    ).commands);
}

// --- laws -------------------------------------------------------------------------

/// No content among the segments is blank.
pub open spec fn has_no_blank(segs: Seq<ResolvedSegmentView>) -> bool {
    forall|i: int| 0 <= i < segs.len() ==> !(#[trigger] segs[i]).blank()
}

/// No blank content is displayed.
pub proof fn law_no_blank_is_displayed(segs: Seq<ResolvedSegmentView>)
    ensures
        has_no_blank(compacted(segs)),
{
    lemma_compacted_has_no_blank(Seq::empty(), segs);
}

proof fn lemma_compacted_has_no_blank(
    out: Seq<ResolvedSegmentView>,
    rest: Seq<ResolvedSegmentView>,
)
    requires
        has_no_blank(out),
    ensures
        has_no_blank(compacted_onto(out, rest)),
    decreases rest.len(),
{
    if rest.len() > 0 {
        if !rest[0].blank() {
            lemma_compacted_has_no_blank(out.push(rest[0]), rest.skip(1));
        } else if rest.len() > 1 && rest[1].kind is Literal {
            lemma_compacted_has_no_blank(out, rest.skip(2));
        } else if out.len() > 0 && out.last().kind is Literal {
            lemma_compacted_has_no_blank(out.drop_last(), rest.skip(1));
        } else {
            lemma_compacted_has_no_blank(out, rest.skip(1));
        }
    }
}

/// A strip without blank content is displayed as it is.
pub proof fn law_full_strip_is_kept(segs: Seq<ResolvedSegmentView>)
    requires
        has_no_blank(segs),
    ensures
        compacted(segs) == segs,
{
    lemma_compacted_keeps(Seq::empty(), segs);
    assert(Seq::<ResolvedSegmentView>::empty() + segs =~= segs);
}

proof fn lemma_compacted_keeps(out: Seq<ResolvedSegmentView>, rest: Seq<ResolvedSegmentView>)
    requires
        has_no_blank(rest),
    ensures
        compacted_onto(out, rest) == out + rest,
    decreases rest.len(),
{
    if rest.len() > 0 {
        assert(!rest[0].blank());
        lemma_compacted_keeps(out.push(rest[0]), rest.skip(1));
        assert(out.push(rest[0]) + rest.skip(1) =~= out + rest);
    } else {
        assert(out + rest =~= out);
    }
}

/// The content of the segments that has text, in order.
pub open spec fn filled_content(segs: Seq<ResolvedSegmentView>) -> Seq<ResolvedSegmentView> {
    segs.filter(|s: ResolvedSegmentView| s.filled())
}

/// Content that has text is displayed, all of it and in order.
pub proof fn law_content_is_kept(segs: Seq<ResolvedSegmentView>)
    ensures
        filled_content(compacted(segs)) == filled_content(segs),
{
    let none = Seq::<ResolvedSegmentView>::empty();
    lemma_compacted_content(none, segs);
    reveal(Seq::filter);
    assert(filled_content(none) + filled_content(segs) =~= filled_content(segs));
}

proof fn lemma_filled_first(segs: Seq<ResolvedSegmentView>)
    requires
        segs.len() > 0,
    ensures
        filled_content(segs) == (if segs[0].filled() {
            seq![segs[0]]
        } else {
            Seq::empty()
        }) + filled_content(segs.skip(1)),
    decreases segs.len(),
{
    reveal(Seq::filter);
    if segs.len() == 1 {
        assert(segs.drop_last() =~= Seq::<ResolvedSegmentView>::empty());
        assert(segs.skip(1) =~= Seq::<ResolvedSegmentView>::empty());
        assert(filled_content(segs) =~= (if segs[0].filled() {
            seq![segs[0]]
        } else {
            Seq::empty()
        }) + filled_content(segs.skip(1)));
    } else {
        lemma_filled_first(segs.drop_last());
        assert(segs.skip(1).drop_last() =~= segs.drop_last().skip(1));
        assert(segs.skip(1).last() == segs.last());
        assert(filled_content(segs) =~= (if segs[0].filled() {
            seq![segs[0]]
        } else {
            Seq::empty()
        }) + filled_content(segs.skip(1)));
    }
}

proof fn lemma_filled_last(out: Seq<ResolvedSegmentView>, last: ResolvedSegmentView)
    ensures
        filled_content(out.push(last)) == (if last.filled() {
            filled_content(out).push(last)
        } else {
            filled_content(out)
        }),
{
    reveal(Seq::filter);
    assert(out.push(last).drop_last() =~= out);
}

proof fn lemma_compacted_content(out: Seq<ResolvedSegmentView>, rest: Seq<ResolvedSegmentView>)
    ensures
        filled_content(compacted_onto(out, rest)) == filled_content(out) + filled_content(rest),
    decreases rest.len(),
{
    if rest.len() == 0 {
        reveal(Seq::filter);
        assert(filled_content(out) + filled_content(rest) =~= filled_content(out));
    } else {
        lemma_filled_first(rest);
        if !rest[0].blank() {
            lemma_compacted_content(out.push(rest[0]), rest.skip(1));
            lemma_filled_last(out, rest[0]);
            assert(filled_content(out.push(rest[0])) + filled_content(rest.skip(1))
                =~= filled_content(out) + filled_content(rest));
        } else if rest.len() > 1 && rest[1].kind is Literal {
            lemma_compacted_content(out, rest.skip(2));
            lemma_filled_first(rest.skip(1));
            assert(rest.skip(1).skip(1) =~= rest.skip(2));
            assert(filled_content(rest) =~= filled_content(rest.skip(2)));
        } else if out.len() > 0 && out.last().kind is Literal {
            lemma_compacted_content(out.drop_last(), rest.skip(1));
            assert(out.drop_last().push(out.last()) =~= out);
            lemma_filled_last(out.drop_last(), out.last());
            assert(filled_content(rest) =~= filled_content(rest.skip(1)));
        } else {
            lemma_compacted_content(out, rest.skip(1));
            assert(filled_content(rest) =~= filled_content(rest.skip(1)));
        }
    }
}

/// Content and separators take turns, and content stands at both ends.
pub open spec fn well_separated(segs: Seq<ResolvedSegmentView>) -> bool {
    &&& segs.len() == 0 || segs.len() % 2 == 1
    &&& forall|i: int| 0 <= i < segs.len() ==> ((#[trigger] segs[i]).kind is Content <==> i % 2 == 0)
}

/// Blank content leaves no separator dangling: where content and separators
/// take turns before, they still do.
pub proof fn law_no_separator_dangles(segs: Seq<ResolvedSegmentView>)
    requires
        well_separated(segs),
    ensures
        well_separated(compacted(segs)),
{
    lemma_compacted_separation(Seq::empty(), segs);
}

proof fn lemma_compacted_separation(
    out: Seq<ResolvedSegmentView>,
    rest: Seq<ResolvedSegmentView>,
)
    requires
        forall|i: int| 0 <= i < out.len() ==> ((#[trigger] out[i]).kind is Content <==> i % 2 == 0),
        forall|i: int|
            0 <= i < rest.len() ==> ((#[trigger] rest[i]).kind is Content <==> (out.len() + i) % 2
                == 0),
        (out.len() + rest.len()) % 2 == 1 || out.len() + rest.len() == 0,
    ensures
        well_separated(compacted_onto(out, rest)),
    decreases rest.len(),
{
    if rest.len() > 0 {
        if !rest[0].blank() {
            lemma_compacted_separation(out.push(rest[0]), rest.skip(1));
        } else if rest.len() > 1 && rest[1].kind is Literal {
            lemma_compacted_separation(out, rest.skip(2));
        } else {
            assert(rest.len() == 1);
            if out.len() > 0 {
                assert(out.last().kind is Literal);
                lemma_compacted_separation(out.drop_last(), rest.skip(1));
            } else {
                lemma_compacted_separation(out, rest.skip(1));
            }
        }
    }
}

/// How many separators there are.
pub open spec fn separators(segs: Seq<ResolvedSegmentView>) -> nat
    decreases segs.len(),
{
    if segs.len() == 0 {
        0
    } else {
        separators(segs.drop_last()) + if segs.last().kind is Literal {
            1nat
        } else {
            0nat
        }
    }
}

/// How much content is blank.
pub open spec fn blanks(segs: Seq<ResolvedSegmentView>) -> nat
    decreases segs.len(),
{
    if segs.len() == 0 {
        0
    } else {
        blanks(segs.drop_last()) + if segs.last().blank() {
            1nat
        } else {
            0nat
        }
    }
}

/// Each blank takes at most one separator with it, and no separator goes
/// without one.
pub proof fn law_one_separator_for_each_blank(segs: Seq<ResolvedSegmentView>)
    ensures
        separators(compacted(segs)) <= separators(segs) <= separators(compacted(segs)) + blanks(
            segs,
        ),
{
    lemma_compacted_counts(Seq::empty(), segs);
}

proof fn lemma_counts_first(segs: Seq<ResolvedSegmentView>)
    requires
        segs.len() > 0,
    ensures
        separators(segs) == separators(segs.skip(1)) + (if segs[0].kind is Literal {
            1nat
        } else {
            0nat
        }),
        blanks(segs) == blanks(segs.skip(1)) + (if segs[0].blank() {
            1nat
        } else {
            0nat
        }),
    decreases segs.len(),
{
    if segs.len() == 1 {
        assert(segs.drop_last() =~= Seq::<ResolvedSegmentView>::empty());
        assert(segs.skip(1) =~= Seq::<ResolvedSegmentView>::empty());
    } else {
        lemma_counts_first(segs.drop_last());
        assert(segs.skip(1).drop_last() =~= segs.drop_last().skip(1));
        assert(segs.skip(1).last() == segs.last());
    }
}

proof fn lemma_compacted_counts(out: Seq<ResolvedSegmentView>, rest: Seq<ResolvedSegmentView>)
    ensures
        separators(compacted_onto(out, rest)) <= separators(out) + separators(rest)
            <= separators(compacted_onto(out, rest)) + blanks(rest),
    decreases rest.len(),
{
    if rest.len() > 0 {
        lemma_counts_first(rest);
        if !rest[0].blank() {
            lemma_compacted_counts(out.push(rest[0]), rest.skip(1));
            assert(out.push(rest[0]).drop_last() =~= out);
        } else if rest.len() > 1 && rest[1].kind is Literal {
            lemma_compacted_counts(out, rest.skip(2));
            lemma_counts_first(rest.skip(1));
            assert(rest.skip(1).skip(1) =~= rest.skip(2));
        } else if out.len() > 0 && out.last().kind is Literal {
            lemma_compacted_counts(out.drop_last(), rest.skip(1));
        } else {
            lemma_compacted_counts(out, rest.skip(1));
        }
    }
}

/// A session that nobody watches spawns nothing and changes nothing.
pub proof fn law_detached_session_rests(
    app: AppView,
    now: Instant,
    sampled: Option<ClockTime>,
    tick: StripTick,
)
    requires
        app.tick_returns(now, false, sampled, tick),
    ensures
        app.ticked(now, false, sampled) == app,
        tick.spawns@.len() == 0,
        !tick.changed,
{
    assert(views(tick.spawns@).len() == tick.spawns@.len());
}

/// A second tick at the same instant spawns nothing.
pub proof fn law_tick_spawns_once(
    app: AppView,
    now: Instant,
    sampled: Option<ClockTime>,
    again: Option<ClockTime>,
    tick: StripTick,
)
    requires
        app.serviced(true),
        app.ticked(now, true, sampled).tick_returns(now, true, again, tick),
    ensures
        tick.spawns@.len() == 0,
{
    let after = app.ticked(now, true, sampled);
    let spawns = views(tick.spawns@);
    assert(after.serviced(true));
    if spawns.len() > 0 {
        let k = spawns[0].command;
        assert(spawns[0] == after.spawn_of(k));
        assert(spawns.contains(after.spawn_of(k)));
        assert(after.strip.is_due(k, now));
    }
}

/// What can happen to the strip of one configuration.
pub enum StripEvent {
    Tick { now: Instant, has_client: bool, sampled: Option<ClockTime> },
    Finished { generation: u64, command: Seq<char>, value: Option<Seq<char>> },
}

impl AppView {
    /// The endpoint after one event.
    pub open spec fn after_event(self, event: StripEvent) -> AppView {
        match event {
            StripEvent::Tick { now, has_client, sampled } => self.ticked(now, has_client, sampled),
            StripEvent::Finished { generation, command, value } => self.command_finished(
                generation,
                command,
                value,
            ),
        }
    }

    /// The endpoint after some events, in order.
    pub open spec fn after_events(self, events: Seq<StripEvent>) -> AppView
        decreases events.len(),
    {
        if events.len() == 0 {
            self
        } else {
            self.after_events(events.drop_last()).after_event(events.last())
        }
    }

    /// A command of the strip runs.
    pub open spec fn is_running(self, command: Seq<char>) -> bool {
        self.strip.commands.dom().contains(command) && self.strip.commands[command].in_flight
    }
}

/// The event applies the result of a command.
pub open spec fn settles(event: StripEvent, generation: u64, command: Seq<char>) -> bool {
    event matches StripEvent::Finished { generation: g, command: c, .. } && g == generation && c
        == command
}

/// A command that was spawned is not spawned again by any later tick, until its
/// result is applied.
pub proof fn law_running_command_is_not_respawned(
    app: AppView,
    now: Instant,
    has_client: bool,
    sampled: Option<ClockTime>,
    first: StripTick,
    command: Seq<char>,
    events: Seq<StripEvent>,
    at: Instant,
    watched: bool,
    again: Option<ClockTime>,
    tick: StripTick,
)
    requires
        app.tick_returns(now, has_client, sampled, first),
        views(first.spawns@).contains(app.spawn_of(command)),
        forall|i: int|
            0 <= i < events.len() ==> !settles(#[trigger] events[i], app.generation, command),
        app.ticked(now, has_client, sampled).after_events(events).tick_returns(
            at,
            watched,
            again,
            tick,
        ),
    ensures
        app.ticked(now, has_client, sampled).after_events(events).is_running(command),
        forall|i: int|
            0 <= i < tick.spawns@.len() ==> (#[trigger] tick.spawns@[i])@.command != command,
{
    let start = app.ticked(now, has_client, sampled);
    assert(app.strip.is_due(command, now)) by {
        let spawned = app.strip.is_due(command, now);
        assert(app.serviced(has_client));
    }
    assert(start.is_running(command));
    lemma_running_stays(start, command, events);
    let last = start.after_events(events);
    let spawns = views(tick.spawns@);
    assert forall|i: int| 0 <= i < tick.spawns@.len() implies (
    #[trigger] tick.spawns@[i])@.command != command by {
        assert(spawns[i] == last.spawn_of(spawns[i].command));
        assert(spawns.contains(last.spawn_of(spawns[i].command)));
        assert(last.serviced(watched));
        assert(last.strip.is_due(spawns[i].command, at));
    }
}

proof fn lemma_running_stays(app: AppView, command: Seq<char>, events: Seq<StripEvent>)
    requires
        app.is_running(command),
        forall|i: int|
            0 <= i < events.len() ==> !settles(#[trigger] events[i], app.generation, command),
    ensures
        app.after_events(events).is_running(command),
        app.after_events(events).generation == app.generation,
    decreases events.len(),
{
    if events.len() > 0 {
        let front = events.drop_last();
        assert forall|i: int| 0 <= i < front.len() implies !settles(
            #[trigger] front[i],
            app.generation,
            command,
        ) by {
            assert(front[i] == events[i]);
        }
        lemma_running_stays(app, command, front);
        assert(!settles(events[events.len() - 1], app.generation, command));
    }
}

/// A new configuration keeps every pushed value, and the results of commands
/// that were spawned just before it change nothing.
pub proof fn law_reconfiguration_keeps_pushed_values(
    app: AppView,
    strip: StripView,
    now: Instant,
    source: Seq<char>,
    at: Instant,
    command: Seq<char>,
    value: Option<Seq<char>>,
)
    ensures
        app.reconfigured(strip, now).slots.shown(source, at) == app.slots.shown(source, at),
        app.reconfigured(strip, now).command_finished(app.generation, command, value)
            == app.reconfigured(strip, now),
{
}

/// Only a referenced source can change what the strip displays.
pub proof fn law_unreferenced_push_is_not_displayed(
    strip: StripView,
    before: SlotStoreView,
    after: SlotStoreView,
    source: Seq<char>,
    now: Instant,
)
    requires
        !references(strip, source),
        forall|other: Seq<char>|
            other != source ==> before.shown(other, now) == #[trigger] after.shown(other, now),
    ensures
        displayed(strip, before, now) == displayed(strip, after, now),
{
    if strip.enabled() {
        lemma_unreferenced(strip, before, after, source, now, strip.segments.len() as int);
    }
}

proof fn lemma_unreferenced(
    strip: StripView,
    before: SlotStoreView,
    after: SlotStoreView,
    source: Seq<char>,
    now: Instant,
    n: int,
)
    requires
        0 <= n <= strip.segments.len(),
        !strip.segments.contains(SegmentView::Slot(source)),
        forall|other: Seq<char>|
            other != source ==> before.shown(other, now) == #[trigger] after.shown(other, now),
    ensures
        resolved_first(strip, before, now, n) == resolved_first(strip, after, now, n),
    decreases n,
{
    if n > 0 {
        lemma_unreferenced(strip, before, after, source, now, n - 1);
        if let SegmentView::Slot(name) = strip.segments[n - 1] {
            assert(name != source);
            assert(before.shown(name, now) == after.shown(name, now));
        }
    }
}

/// The segments with the style taken from each.
pub open spec fn unstyled(segs: Seq<ResolvedSegmentView>) -> Seq<ResolvedSegmentView> {
    Seq::new(
        segs.len(),
        |i: int| ResolvedSegmentView { style: StyleSpecView::base(), ..segs[i] },
    )
}

/// The segments of a format without its directives.
pub open spec fn undirected(segments: Seq<SegmentView>) -> Seq<SegmentView>
    decreases segments.len(),
{
    if segments.len() == 0 {
        segments
    } else if segments.last() is Style {
        undirected(segments.drop_last())
    } else {
        undirected(segments.drop_last()).push(segments.last())
    }
}

/// Directives set styles and nothing else: a strip displays the same texts with
/// them and without.
pub proof fn law_directives_add_no_text(strip: StripView, slots: SlotStoreView, now: Instant)
    ensures
        ({
            let bare = StripView { segments: undirected(strip.segments), ..strip };
            &&& unstyled(displayed(strip, slots, now)) == unstyled(displayed(bare, slots, now))
            &&& joined(displayed(strip, slots, now)) == joined(displayed(bare, slots, now))
        }),
{
    let bare = StripView { segments: undirected(strip.segments), ..strip };
    let none = Seq::<ResolvedSegmentView>::empty();
    lemma_resolved_undirected(strip, slots, now, strip.segments.len() as int);
    assert(strip.segments.take(strip.segments.len() as int) =~= strip.segments);
    lemma_compacted_unstyled(none, resolved(strip, slots, now));
    lemma_compacted_unstyled(none, resolved(bare, slots, now));
    assert(unstyled(none) =~= none);
    assert(unstyled(displayed(strip, slots, now)) =~= unstyled(displayed(bare, slots, now)));
    lemma_joined_unstyled(displayed(strip, slots, now));
    lemma_joined_unstyled(displayed(bare, slots, now));
}

/// What the first segments resolve to depends on those segments alone.
proof fn lemma_resolved_prefix(
    a: StripView,
    b: StripView,
    slots: SlotStoreView,
    now: Instant,
    n: int,
)
    requires
        a.clock_texts == b.clock_texts,
        a.commands == b.commands,
        0 <= n <= a.segments.len(),
        n <= b.segments.len(),
        forall|i: int| 0 <= i < n ==> a.segments[i] == b.segments[i],
    ensures
        unstyled(resolved_first(a, slots, now, n)) == unstyled(resolved_first(b, slots, now, n)),
    decreases n,
{
    if n > 0 {
        lemma_resolved_prefix(a, b, slots, now, n - 1);
        let left = resolved_first(a, slots, now, n - 1);
        let right = resolved_first(b, slots, now, n - 1);
        assert(left.len() == unstyled(left).len() == unstyled(right).len() == right.len());
        assert(a.segments[n - 1] == b.segments[n - 1]);
        match segment_shows(a, slots, now, a.segments[n - 1]) {
            Some((kind, text)) => {
                let plain = ResolvedSegmentView { kind, text, style: StyleSpecView::base() };
                assert(unstyled(resolved_first(a, slots, now, n)) =~= unstyled(left).push(plain));
                assert(unstyled(resolved_first(b, slots, now, n)) =~= unstyled(right).push(plain));
            },
            None => {},
        }
    }
}

proof fn lemma_resolved_undirected(strip: StripView, slots: SlotStoreView, now: Instant, n: int)
    requires
        0 <= n <= strip.segments.len(),
    ensures
        ({
            let front = undirected(strip.segments.take(n));
            let bare = StripView { segments: front, ..strip };
            unstyled(resolved_first(strip, slots, now, n)) == unstyled(
                resolved_first(bare, slots, now, front.len() as int),
            )
        }),
    decreases n,
{
    let front = undirected(strip.segments.take(n));
    let bare = StripView { segments: front, ..strip };
    if n > 0 {
        let shorter = undirected(strip.segments.take(n - 1));
        let less = StripView { segments: shorter, ..strip };
        lemma_resolved_undirected(strip, slots, now, n - 1);
        assert(strip.segments.take(n).drop_last() =~= strip.segments.take(n - 1));
        let last = strip.segments[n - 1];
        assert(strip.segments.take(n).last() == last);
        let left = resolved_first(strip, slots, now, n - 1);
        if !(last is Style) {
            assert(front == shorter.push(last));
            let m = shorter.len() as int;
            lemma_resolved_prefix(less, bare, slots, now, m);
            let right = resolved_first(bare, slots, now, m);
            assert(bare.segments[m] == last);
            match segment_shows(strip, slots, now, last) {
                Some((kind, text)) => {
                    let plain = ResolvedSegmentView { kind, text, style: StyleSpecView::base() };
                    assert(unstyled(resolved_first(strip, slots, now, n)) =~= unstyled(left).push(
                        plain,
                    ));
                    assert(resolved_first(bare, slots, now, m + 1) == right.push(
                        ResolvedSegmentView { kind, text, style: style_before(front, m) },
                    ));
                    assert(unstyled(resolved_first(bare, slots, now, m + 1)) =~= unstyled(
                        right,
                    ).push(plain));
                },
                None => {},
            }
        }
    } else {
        assert(strip.segments.take(0) =~= Seq::<SegmentView>::empty());
        assert(front.len() == 0);
    }
}

/// Which segments go does not depend on their styles.
proof fn lemma_compacted_unstyled(out: Seq<ResolvedSegmentView>, rest: Seq<ResolvedSegmentView>)
    ensures
        unstyled(compacted_onto(out, rest)) == compacted_onto(unstyled(out), unstyled(rest)),
    decreases rest.len(),
{
    let bare = unstyled(rest);
    if rest.len() > 0 {
        assert(bare.skip(1) =~= unstyled(rest.skip(1)));
        if !rest[0].blank() {
            lemma_compacted_unstyled(out.push(rest[0]), rest.skip(1));
            assert(unstyled(out.push(rest[0])) =~= unstyled(out).push(bare[0]));
        } else if rest.len() > 1 && rest[1].kind is Literal {
            lemma_compacted_unstyled(out, rest.skip(2));
            assert(bare[1].kind == rest[1].kind);
            assert(bare.skip(2) =~= unstyled(rest.skip(2)));
        } else if out.len() > 0 && out.last().kind is Literal {
            lemma_compacted_unstyled(out.drop_last(), rest.skip(1));
            assert(unstyled(out).last().kind == out.last().kind);
            assert(unstyled(out.drop_last()) =~= unstyled(out).drop_last());
            assert(rest.len() > 1 ==> bare[1].kind == rest[1].kind);
        } else {
            lemma_compacted_unstyled(out, rest.skip(1));
            assert(out.len() > 0 ==> unstyled(out).last().kind == out.last().kind);
            assert(rest.len() > 1 ==> bare[1].kind == rest[1].kind);
        }
    }
}

proof fn lemma_joined_unstyled(segs: Seq<ResolvedSegmentView>)
    ensures
        joined(unstyled(segs)) == joined(segs),
    decreases segs.len(),
{
    if segs.len() > 0 {
        lemma_joined_unstyled(segs.drop_last());
        assert(unstyled(segs).drop_last() =~= unstyled(segs.drop_last()));
        assert(unstyled(segs).last().text == segs.last().text);
    }
}

/// How many of the first `n` segments are no directives.
pub open spec fn places_before(segments: Seq<SegmentView>, n: int) -> nat
    decreases n,
{
    if n <= 0 {
        0
    } else if segments[n - 1] is Style {
        places_before(segments, n - 1)
    } else {
        places_before(segments, n - 1) + 1
    }
}

proof fn lemma_resolved_place(
    strip: StripView,
    slots: SlotStoreView,
    now: Instant,
    n: int,
    upto: int,
)
    requires
        0 <= n < upto,
    ensures
        resolved_first(strip, slots, now, upto).len() == places_before(strip.segments, upto),
        places_before(strip.segments, n) <= places_before(strip.segments, upto),
        !(strip.segments[n] is Style) ==> {
            let place = places_before(strip.segments, n) as int;
            let (kind, text) = segment_shows(strip, slots, now, strip.segments[n])->0;
            &&& place < resolved_first(strip, slots, now, upto).len()
            &&& resolved_first(strip, slots, now, upto)[place] == (ResolvedSegmentView {
                kind,
                text,
                style: style_before(strip.segments, n),
            })
        },
    decreases upto,
{
    if upto == n + 1 {
        if n > 0 {
            lemma_resolved_place(strip, slots, now, n - 1, n);
        } else {
            assert(resolved_first(strip, slots, now, 0).len() == 0);
        }
        assert(resolved_first(strip, slots, now, n).len() == places_before(strip.segments, n));
    } else {
        lemma_resolved_place(strip, slots, now, n, upto - 1);
    }
}

/// Each segment but a directive stands at its own place, in the style in force
/// there. A literal shows itself and separates; a clock shows the time of the last
/// refresh, a command its last output, a slot the value on display, and each
/// nothing where there is none.
pub proof fn law_segments_show_their_own_text(
    strip: StripView,
    slots: SlotStoreView,
    now: Instant,
    n: int,
)
    requires
        0 <= n < strip.segments.len(),
    ensures
        resolved(strip, slots, now).len() == places_before(
            strip.segments,
            strip.segments.len() as int,
        ),
        ({
            let place = places_before(strip.segments, n) as int;
            let shown = resolved(strip, slots, now)[place];
            &&& !(strip.segments[n] is Style) ==> place < resolved(strip, slots, now).len()
                && shown.style == style_before(strip.segments, n)
            &&& strip.segments[n] matches SegmentView::Literal(text) ==> shown.kind is Literal
                && shown.text == text
            &&& strip.segments[n] matches SegmentView::Clock(fmt) ==> shown.kind is Content && (
            if strip.clock_texts.dom().contains(fmt) {
                shown.text == strip.clock_texts[fmt]
            } else {
                shown.text.len() == 0
            })
            &&& strip.segments[n] matches SegmentView::Command(command) ==> shown.kind is Content
                && (if strip.commands.dom().contains(command)
                && strip.commands[command].last_value is Some {
                shown.text == strip.commands[command].last_value->0
            } else {
                shown.text.len() == 0
            })
            &&& strip.segments[n] matches SegmentView::Slot(name) ==> shown.kind is Content && (
            if slots.shown(name, now) is Some {
                shown.text == slots.shown(name, now)->0
            } else {
                shown.text.len() == 0
            })
        }),
{
    lemma_resolved_place(strip, slots, now, n, strip.segments.len() as int);
}

/// The directive at `i` decides a colour of segment `n`: no later one before `n`
/// sets that colour or resets.
pub open spec fn decides_fg(segments: Seq<SegmentView>, i: int, n: int) -> bool {
    &&& segments[i] matches SegmentView::Style(d) && (d.fg is Some || d.reset)
    &&& forall|k: int|
        i < k < n ==> (#[trigger] segments[k] matches SegmentView::Style(d) ==> d.fg is None
            && !d.reset)
}

/// As `decides_fg`, for the background.
pub open spec fn decides_bg(segments: Seq<SegmentView>, i: int, n: int) -> bool {
    &&& segments[i] matches SegmentView::Style(d) && (d.bg is Some || d.reset)
    &&& forall|k: int|
        i < k < n ==> (#[trigger] segments[k] matches SegmentView::Style(d) ==> d.bg is None
            && !d.reset)
}

/// A segment has the colours of the last directives before it that set or reset
/// them, each colour by itself, and no colour without one.
pub proof fn law_last_directive_wins(segments: Seq<SegmentView>, i: int, n: int)
    requires
        0 <= i < n <= segments.len(),
    ensures
        decides_fg(segments, i, n) ==> style_before(segments, n).fg == segments[i]->Style_0.fg,
        decides_bg(segments, i, n) ==> style_before(segments, n).bg == segments[i]->Style_0.bg,
        (forall|k: int|
            0 <= k < n ==> (#[trigger] segments[k] matches SegmentView::Style(d) ==> d.fg is None))
            ==> style_before(segments, n).fg is None,
        (forall|k: int|
            0 <= k < n ==> (#[trigger] segments[k] matches SegmentView::Style(d) ==> d.bg is None))
            ==> style_before(segments, n).bg is None,
    decreases n,
{
    if n > i + 1 {
        law_last_directive_wins(segments, i, n - 1);
        assert(segments[n - 1] == segments[n - 1]);
    } else if i > 0 {
        law_last_directive_wins(segments, i - 1, n - 1);
        assert(segments[n - 1] == segments[n - 1]);
    } else {
        assert(style_before(segments, 0) == StyleSpecView::base());
        assert(segments[n - 1] == segments[n - 1]);
    }
}

/// Blank content takes the separator that follows it, and leaves all the rest.
pub proof fn law_blank_takes_the_next_separator(
    front: Seq<ResolvedSegmentView>,
    blank: ResolvedSegmentView,
    separator: ResolvedSegmentView,
    rest: Seq<ResolvedSegmentView>,
)
    requires
        has_no_blank(front),
        has_no_blank(rest),
        blank.blank(),
        separator.kind is Literal,
    ensures
        compacted(front + seq![blank, separator] + rest) == front + rest,
{
    let none = Seq::<ResolvedSegmentView>::empty();
    let tail = seq![blank, separator] + rest;
    assert(front + seq![blank, separator] + rest =~= front + tail);
    lemma_compacted_front(none, front, tail);
    assert(none + front =~= front);
    assert(tail[0] == blank && tail[1] == separator);
    assert(tail.skip(2) =~= rest);
    lemma_compacted_keeps(front, rest);
}

/// Blank content that no separator follows takes the one before it, and without
/// one goes alone.
pub proof fn law_trailing_blank_takes_the_separator_before(
    front: Seq<ResolvedSegmentView>,
    blank: ResolvedSegmentView,
    rest: Seq<ResolvedSegmentView>,
)
    requires
        has_no_blank(front),
        has_no_blank(rest),
        blank.blank(),
        rest.len() > 0 ==> rest[0].kind is Content,
    ensures
        front.len() > 0 && front.last().kind is Literal ==> compacted(
            front + seq![blank] + rest,
        ) == front.drop_last() + rest,
        !(front.len() > 0 && front.last().kind is Literal) ==> compacted(
            front + seq![blank] + rest,
        ) == front + rest,
{
    let none = Seq::<ResolvedSegmentView>::empty();
    let tail = seq![blank] + rest;
    assert(front + seq![blank] + rest =~= front + tail);
    lemma_compacted_front(none, front, tail);
    assert(none + front =~= front);
    assert(tail[0] == blank);
    assert(rest.len() > 0 ==> tail[1] == rest[0]);
    assert(tail.skip(1) =~= rest);
    if front.len() > 0 {
        lemma_compacted_keeps(front.drop_last(), rest);
    }
    lemma_compacted_keeps(front, rest);
}

proof fn lemma_compacted_front(
    out: Seq<ResolvedSegmentView>,
    front: Seq<ResolvedSegmentView>,
    tail: Seq<ResolvedSegmentView>,
)
    requires
        has_no_blank(front),
    ensures
        compacted_onto(out, front + tail) == compacted_onto(out + front, tail),
    decreases front.len(),
{
    if front.len() == 0 {
        assert(front + tail =~= tail);
        assert(out + front =~= out);
    } else {
        assert(!front[0].blank());
        assert((front + tail)[0] == front[0]);
        assert((front + tail).skip(1) =~= front.skip(1) + tail);
        lemma_compacted_front(out.push(front[0]), front.skip(1), tail);
        assert(out.push(front[0]) + front.skip(1) =~= out + front);
    }
}

/// A disabled strip displays nothing and asks for no column. An enabled one asks
/// for its budget, up to what 16 bits can say.
pub proof fn law_disabled_strip_takes_no_room(strip: StripView, slots: SlotStoreView, now: Instant)
    ensures
        !strip.enabled() ==> displayed(strip, slots, now).len() == 0 && wire_budget(strip) == 0,
        strip.enabled() ==> displayed(strip, slots, now) == compacted(resolved(strip, slots, now)),
        strip.enabled() && strip.budget <= 65535 ==> wire_budget(strip) == strip.budget,
        strip.enabled() && strip.budget > 65535 ==> wire_budget(strip) == 65535,
{
}

/// The line is the texts on display, one behind the other.
pub proof fn law_line_joins_the_texts(front: Seq<ResolvedSegmentView>, last: ResolvedSegmentView)
    ensures
        joined(Seq::empty()) == Seq::<char>::empty(),
        joined(front.push(last)) == joined(front) + last.text,
{
    assert(front.push(last).drop_last() =~= front);
}

/// While somebody watches, a clock that is due shows the sampled time in every
/// clock segment and rests for its period; before that it is left alone.
pub proof fn law_due_clock_shows_the_sampled_time(
    app: AppView,
    now: Instant,
    t: ClockTime,
    fmt: Seq<char>,
    at: Instant,
)
    requires
        app.strip.enabled(),
        app.next_clock == Some(at),
        app.strip.segments.contains(SegmentView::Clock(fmt)),
    ensures
        now.nanos >= at.nanos ==> app.ticked(now, true, Some(t)).strip.clock_cached(fmt)
            == clock_text(fmt, t),
        now.nanos < at.nanos ==> app.ticked(now, true, Some(t)).strip.clock_cached(fmt)
            == app.strip.clock_cached(fmt) && app.ticked(now, true, Some(t)).next_clock == Some(at),
        now.nanos >= at.nanos && app.ticked(now, true, Some(t)).next_clock is Some
            && app.strip.clock_period() is Some ==> app.ticked(
            now,
            true,
            Some(t),
        ).next_clock->0.nanos == now.nanos + app.strip.clock_period()->0.nanos,
{
}

/// A tick asks for each due command once, with two seconds to run, and marks
/// exactly those as running from now on; what they last showed stays on display.
pub proof fn law_tick_starts_the_due_commands(
    app: AppView,
    now: Instant,
    sampled: Option<ClockTime>,
    command: Seq<char>,
    tick: StripTick,
)
    requires
        app.strip.enabled(),
        app.tick_returns(now, true, sampled, tick),
        app.strip.commands.dom().contains(command),
    ensures
        ({
            let before = app.strip.commands[command];
            let after = app.ticked(now, true, sampled).strip.commands[command];
            let asked = views(tick.spawns@).contains(
                CommandSpawnView {
                    generation: app.generation,
                    command,
                    timeout: Duration { nanos: 2_000_000_000 },
                },
            );
            &&& asked <==> app.strip.is_due(command, now)
            &&& asked ==> after.in_flight && after.last_run == Some(now)
            &&& !asked ==> after == before
            &&& after.last_value == before.last_value
            &&& app.ticked(now, true, sampled).strip.commands.dom() == app.strip.commands.dom()
        }),
{
    assert(app.strip.is_due(command, now) == app.strip.commands[command].due(
        app.strip.interval,
        now,
    ));
    assert(app.spawn_of(command).timeout.nanos == 2_000_000_000);
    assert(app.ticked(now, true, sampled).strip.commands.dom() =~= app.strip.commands.dom());
}

/// A new configuration is another generation, has its clock due at once, and
/// takes the strip that it is given.
pub proof fn law_reconfiguration_starts_over(app: AppView, strip: StripView, now: Instant)
    ensures
        app.reconfigured(strip, now).generation != app.generation,
        app.reconfigured(strip, now).strip == strip,
        app.reconfigured(strip, now).clock_due(now) <==> strip.has_clock(),
        strip.has_clock() <==> exists|i: int|
            0 <= i < strip.segments.len() && #[trigger] strip.segments[i] is Clock,
{
}

/// What a finished command showed is on display from then on, where it belongs to
/// the current configuration; a run that failed leaves the last output.
pub proof fn law_finished_command_is_displayed(
    app: AppView,
    command: Seq<char>,
    value: Seq<char>,
)
    requires
        app.strip.commands.dom().contains(command),
    ensures
        app.command_finished(app.generation, command, Some(value)).strip.command_cached(command)
            == value,
        app.command_finished(app.generation, command, None).strip.command_cached(command)
            == app.strip.command_cached(command),
        !app.command_finished(app.generation, command, None).strip.commands[command].in_flight,
        forall|err: String| result_text(Err(err)) is None,
        result_text(Ok(None)) is None,
        forall|text: String| #[trigger] result_text(Ok(Some(text))) == Some(text@),
{
}

/// A source is rendered exactly where the strip is enabled and its format has a
/// slot of that name.
pub proof fn law_rendered_sources(strip: StripView, source: Seq<char>, i: int)
    ensures
        !strip.enabled() ==> !references(strip, source),
        strip.enabled() && 0 <= i < strip.segments.len() && strip.segments[i] == SegmentView::Slot(
            source,
        ) ==> references(strip, source),
        (forall|k: int|
            0 <= k < strip.segments.len() ==> #[trigger] strip.segments[k] != SegmentView::Slot(
                source,
            )) ==> !references(strip, source),
{
}

/// Generations are counted up by one, and start over behind the last number.
pub proof fn law_generations_count_up(app: AppView, strip: StripView, now: Instant)
    ensures
        app.generation < u64::MAX ==> app.reconfigured(strip, now).generation == app.generation + 1,
        app.generation == u64::MAX ==> app.reconfigured(strip, now).generation == 0,
        app.reconfigured(strip, now).repaint == app.repaint,
{
}

} // verus!
