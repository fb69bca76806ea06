//! What a status strip caches between ticks: its parsed format, the text of its
//! clock runs, and the schedule and last value of its commands.

use vstd::prelude::*;

use crate::clock::{clock_text, format_clock, ClockTime};
use crate::format::{parse_format, segments_of, Segment, SegmentView, Syntax};
use crate::lists::{lemma_contains_push, lemma_no_duplicates_push};
use crate::table::StrMap;
use crate::text::{
    chars_of, copy_opt, law_trimming_takes_blank_space_only, lemma_views_empty, lemma_views_push,
    opt_text, owned, same_text, trim_bounds, trimmed, views, whitespace,
};
use crate::time::{Duration, Instant};

verus! {

/// The shortest interval between two runs of a command, in seconds.
pub const MIN_STATUS_INTERVAL_SECONDS: u64 = 1;

/// The `[ui.status]` settings.
#[derive(Debug, Clone, PartialEq, Eq)]
pub struct StatusConfig {
    pub status_right: String,
    pub status_right_length: usize,
    pub status_interval: u64,
}

impl StatusConfig {
    pub open spec fn interval_seconds(self) -> u64 {
        if self.status_interval < MIN_STATUS_INTERVAL_SECONDS {
            MIN_STATUS_INTERVAL_SECONDS
        } else {
            self.status_interval
        }
    }

    /// The configured interval, floored.
    pub fn effective_interval_seconds(&self) -> (r: u64)
        ensures
            r == self.interval_seconds(),
    {
        if self.status_interval < MIN_STATUS_INTERVAL_SECONDS {
            MIN_STATUS_INTERVAL_SECONDS
        } else {
            self.status_interval
        }
    }
}

/// Schedule and last known value of one command.
#[derive(Debug)]
pub struct CommandSlot {
    pub last_value: Option<String>,
    pub last_run: Option<Instant>,
    pub in_flight: bool,
}

/// Schedule and last known value of one command, with the text as characters.
pub struct CommandSlotView {
    pub last_value: Option<Seq<char>>,
    pub last_run: Option<Instant>,
    pub in_flight: bool,
}

impl View for CommandSlot {
    type V = CommandSlotView;

    open spec fn view(&self) -> CommandSlotView {
        CommandSlotView {
            last_value: opt_text(self.last_value),
            last_run: self.last_run,
            in_flight: self.in_flight,
        }
    }
}

impl CommandSlotView {
    /// A command that never ran.
    pub open spec fn fresh() -> CommandSlotView {
        CommandSlotView { last_value: None, last_run: None, in_flight: false }
    }

    /// Not running, and never run or last run at least `interval` ago.
    pub open spec fn due(self, interval: Duration, now: Instant) -> bool {
        &&& !self.in_flight
        &&& match self.last_run {
            Some(last) => now.nanos_since(last) >= interval.nanos,
            None => true,
        }
    }

    /// When a command that is not running may run again.
    pub open spec fn ready_at(self, interval: Duration, now: Instant) -> Instant {
        match self.last_run {
            Some(last) => match last.plus(interval) {
                Some(at) => at,
                None => now,
            },
            None => now,
        }
    }

    /// The text of the command's segment.
    pub open spec fn text(self) -> Seq<char> {
        match self.last_value {
            Some(value) => value,
            None => Seq::empty(),
        }
    }
}

impl Default for CommandSlot {
    fn default() -> (r: CommandSlot)
        ensures
            r@ == CommandSlotView::fresh(),
    {
        CommandSlot { last_value: None, last_run: None, in_flight: false }
    }
}

impl Clone for CommandSlot {
    fn clone(&self) -> (r: CommandSlot)
        ensures
            r == *self,
    {
        CommandSlot {
            last_value: copy_opt(&self.last_value),
            last_run: self.last_run,
            in_flight: self.in_flight,
        }
    }
}

/// A parsed strip and its caches.
pub struct StripCache {
    raw: String,
    segments: Vec<Segment>,
    budget: usize,
    interval: Duration,
    clock_texts: StrMap<String>,
    commands: StrMap<CommandSlot>,
}

/// The contents of a strip.
pub struct StripView {
    pub raw: Seq<char>,
    pub segments: Seq<SegmentView>,
    pub budget: usize,
    pub interval: Duration,
    pub clock_texts: Map<Seq<char>, Seq<char>>,
    pub commands: Map<Seq<char>, CommandSlotView>,
}

impl View for StripCache {
    type V = StripView;

    closed spec fn view(&self) -> StripView {
        StripView {
            raw: self.raw@,
            segments: views(self.segments@),
            budget: self.budget,
            interval: self.interval,
            clock_texts: self.clock_texts@,
            commands: self.commands@,
        }
    }
}

/// `#(command)` occurs among the segments.
pub open spec fn has_command(segments: Seq<SegmentView>, command: Seq<char>) -> bool {
    segments.contains(SegmentView::Command(command))
}

/// A clock run with this format occurs among the segments.
pub open spec fn has_clock_run(segments: Seq<SegmentView>, fmt: Seq<char>) -> bool {
    segments.contains(SegmentView::Clock(fmt))
}

/// Every command of the segments, none of them run yet.
pub open spec fn registered(segments: Seq<SegmentView>) -> Map<Seq<char>, CommandSlotView> {
    Map::new(|k: Seq<char>| has_command(segments, k), |k: Seq<char>| CommandSlotView::fresh())
}

proof fn lemma_registered_push(segments: Seq<SegmentView>, last: SegmentView)
    ensures
        match last {
            SegmentView::Command(command) => registered(segments.push(last)) == registered(
                segments,
            ).insert(command, CommandSlotView::fresh()),
            _ => registered(segments.push(last)) == registered(segments),
        },
{
    let longer = segments.push(last);
    assert forall|k: Seq<char>|
        has_command(longer, k) == (has_command(segments, k) || last == SegmentView::Command(k)) by {
        lemma_contains_push(segments, last, SegmentView::Command(k));
    }
    match last {
        SegmentView::Command(command) => {
            assert(registered(longer) =~= registered(segments).insert(
                command,
                CommandSlotView::fresh(),
            ));
        },
        _ => {
            assert(registered(longer) =~= registered(segments));
        },
    }
}

/// `%S` occurs in a clock format.
pub open spec fn shows_seconds(fmt: Seq<char>) -> bool {
    exists|i: int| 0 <= i && i + 1 < fmt.len() && #[trigger] fmt[i] == '%' && fmt[i + 1] == 'S'
}

impl StripView {
    /// The strip that a configuration asks for.
    pub open spec fn configured(
        status_right: Seq<char>,
        length: usize,
        interval_seconds: u64,
        syntax: Syntax,
        commands_supported: bool,
    ) -> StripView {
        let segments = segments_of(status_right, syntax);
        StripView {
            raw: status_right,
            segments,
            budget: length,
            interval: Duration::secs(interval_seconds),
            clock_texts: Map::empty(),
            commands: if commands_supported {
                registered(segments)
            } else {
                Map::empty()
            },
        }
    }

    /// A strip shows something only with a format that is not blank and a
    /// budget.
    pub open spec fn enabled(self) -> bool {
        trimmed(self.raw).len() > 0 && self.budget > 0
    }

    pub open spec fn has_clock(self) -> bool {
        exists|i: int| 0 <= i < self.segments.len() && #[trigger] self.segments[i] is Clock
    }

    pub open spec fn has_seconds(self) -> bool {
        exists|i: int|
            0 <= i < self.segments.len() && (#[trigger] self.segments[i] matches SegmentView::Clock(
                fmt,
            ) && shows_seconds(fmt))
    }

    /// How often the clock repaints.
    pub open spec fn clock_period(self) -> Option<Duration> {
        if !self.has_clock() {
            None
        } else if self.has_seconds() {
            Some(Duration::secs(1))
        } else {
            Some(Duration::secs(60))
        }
    }

    /// The strip of no configuration.
    pub open spec fn nothing() -> StripView {
        StripView {
            raw: Seq::empty(),
            segments: Seq::empty(),
            budget: 0,
            interval: Duration::secs(0),
            clock_texts: Map::empty(),
            commands: Map::empty(),
        }
    }

    spec fn refreshed_by(self, segments: Seq<SegmentView>, now: ClockTime) -> Map<
        Seq<char>,
        Seq<char>,
    > {
        Map::new(
            |k: Seq<char>| self.clock_texts.dom().contains(k) || has_clock_run(segments, k),
            |k: Seq<char>|
                if has_clock_run(segments, k) {
                    clock_text(k, now)
                } else {
                    self.clock_texts[k]
                },
        )
    }

    proof fn lemma_refreshed_push(self, segments: Seq<SegmentView>, last: SegmentView, now: ClockTime)
        ensures
            match last {
                SegmentView::Clock(fmt) => self.refreshed_by(segments.push(last), now)
                    == self.refreshed_by(segments, now).insert(fmt, clock_text(fmt, now)),
                _ => self.refreshed_by(segments.push(last), now) == self.refreshed_by(
                    segments,
                    now,
                ),
            },
    {
        let longer = segments.push(last);
        assert forall|k: Seq<char>|
            has_clock_run(longer, k) == (has_clock_run(segments, k) || last == SegmentView::Clock(
                k,
            )) by {
            lemma_contains_push(segments, last, SegmentView::Clock(k));
        }
        match last {
            SegmentView::Clock(fmt) => {
                assert(self.refreshed_by(longer, now) =~= self.refreshed_by(segments, now).insert(
                    fmt,
                    clock_text(fmt, now),
                ));
            },
            _ => {
                assert(self.refreshed_by(longer, now) =~= self.refreshed_by(segments, now));
            },
        }
    }

    /// The strip with every clock run formatted at `now`.
    pub open spec fn refreshed(self, now: ClockTime) -> StripView {
        StripView {
            clock_texts: Map::new(
                |k: Seq<char>|
                    self.clock_texts.dom().contains(k) || has_clock_run(self.segments, k),
                |k: Seq<char>|
                    if has_clock_run(self.segments, k) {
                        clock_text(k, now)
                    } else {
                        self.clock_texts[k]
                    },
            ),
            ..self
        }
    }

    /// A clock run whose cached text is not its text at `now`.
    pub open spec fn stale_clock(self, fmt: Seq<char>, now: ClockTime) -> bool {
        &&& has_clock_run(self.segments, fmt)
        &&& !(self.clock_texts.dom().contains(fmt) && self.clock_texts[fmt] == clock_text(fmt, now))
    }

    /// Some command is registered.
    pub open spec fn has_commands(self) -> bool {
        exists|k: Seq<char>| self.commands.dom().contains(k)
    }

    /// A registered command that may run now.
    pub open spec fn is_due(self, command: Seq<char>, now: Instant) -> bool {
        self.commands.dom().contains(command) && self.commands[command].due(self.interval, now)
    }

    /// An idle command, and the instant from which it may run.
    pub open spec fn may_run_at(self, command: Seq<char>, now: Instant, at: Instant) -> bool {
        &&& self.commands.dom().contains(command)
        &&& !self.commands[command].in_flight
        &&& self.commands[command].ready_at(self.interval, now) == at
    }

    /// `next` is the earliest instant from which some idle command may run, and
    /// absent when no command is idle.
    pub open spec fn is_next_deadline(self, now: Instant, next: Option<Instant>) -> bool {
        &&& forall|k: Seq<char>, at: Instant| #[trigger]
            self.may_run_at(k, now, at) ==> next is Some && next->0.nanos <= at.nanos
        &&& next matches Some(at) ==> exists|k: Seq<char>| #[trigger]
            self.may_run_at(k, now, at)
    }

    /// The strip with another slot for a command it has.
    pub open spec fn with_slot(self, command: Seq<char>, slot: CommandSlotView) -> StripView {
        if self.commands.dom().contains(command) {
            StripView { commands: self.commands.insert(command, slot), ..self }
        } else {
            self
        }
    }

    /// The strip after a command was spawned.
    pub open spec fn started(self, command: Seq<char>, now: Instant) -> StripView {
        self.with_slot(
            command,
            CommandSlotView { in_flight: true, last_run: Some(now), ..self.commands[command] },
        )
    }

    /// The strip after a command finished: a value replaces the cached one,
    /// nothing keeps it.
    pub open spec fn finished(self, command: Seq<char>, value: Option<Seq<char>>) -> StripView {
        self.with_slot(
            command,
            CommandSlotView {
                in_flight: false,
                last_value: if value is Some {
                    value
                } else {
                    self.commands[command].last_value
                },
                ..self.commands[command]
            },
        )
    }

    /// Whether a finished command changes what is displayed.
    pub open spec fn finish_changes(self, command: Seq<char>, value: Option<Seq<char>>) -> bool {
        &&& self.commands.dom().contains(command)
        &&& value is Some
        &&& self.commands[command].last_value != value
    }

    /// The cached text of a clock run.
    pub open spec fn clock_cached(self, fmt: Seq<char>) -> Seq<char> {
        if self.clock_texts.dom().contains(fmt) {
            self.clock_texts[fmt]
        } else {
            Seq::empty()
        }
    }

    /// The cached text of a command.
    pub open spec fn command_cached(self, command: Seq<char>) -> Seq<char> {
        if self.commands.dom().contains(command) {
            self.commands[command].text()
        } else {
            Seq::empty()
        }
    }
}

/// Whether `%S` occurs in a clock format.
fn has_seconds_token(fmt: &str) -> (r: bool)
    ensures
        r == shows_seconds(fmt@),
{
    let chars = chars_of(fmt);
    let total: usize = chars.len();
    let mut i: usize = 0;
    while i < total
        invariant
            i <= total,
            total == chars@.len(),
            chars@ == fmt@,
            forall|k: int|
                0 <= k < i && k + 1 < fmt@.len() ==> !(#[trigger] fmt@[k] == '%' && fmt@[k + 1]
                    == 'S'),
        decreases total - i,
    {
        if chars[i] == '%' && i + 1 < total && chars[i + 1] == 'S' {
            assert(fmt@[i as int] == '%' && fmt@[i + 1] == 'S');
            return true;
        }
        i = i + 1;
    }
    false
}

impl StripCache {
    /// The caches hold no key twice.
    pub closed spec fn wf(&self) -> bool {
        &&& self.clock_texts.wf()
        &&& self.commands.wf()
    }

    /// A strip that shows nothing.
    pub fn blank() -> (r: StripCache)
        ensures
            r.wf(),
            r@ == StripView::nothing(),
    {
        let r = StripCache {
            raw: owned(""),
            segments: Vec::new(),
            budget: 0,
            interval: Duration::from_secs(0),
            clock_texts: StrMap::new(),
            commands: StrMap::new(),
        };
        proof {
            reveal_strlit("");
            assert(r@.raw =~= Seq::<char>::empty());
            assert(r@.segments =~= Seq::<SegmentView>::empty());
        }
        r
    }

    /// Build the strip of a configuration. Commands are registered only where
    /// they can run: an unregistered one resolves to empty text.
    pub fn from_config(cfg: &StatusConfig, syntax: Syntax, commands_supported: bool) -> (r:
        StripCache)
        ensures
            r.wf(),
            r@ == StripView::configured(
                cfg.status_right@,
                cfg.status_right_length,
                cfg.interval_seconds(),
                syntax,
                commands_supported,
            ),
    {
        let segments = parse_format(cfg.status_right.as_str(), syntax);
        let mut commands: StrMap<CommandSlot> = StrMap::new();
        let ghost all = views(segments@);
        if commands_supported {
            let mut i: usize = 0;
            proof {
                assert(commands@ =~= registered(all.take(0)));
            }
            while i < segments.len()
                invariant
                    i <= segments@.len(),
                    all == views(segments@),
                    commands.wf(),
                    commands@ == registered(all.take(i as int)),
                decreases segments@.len() - i,
            {
                let ghost before = all.take(i as int);
                let ghost after = all.take(i as int + 1);
                assert(after =~= before.push(all[i as int]));
                if let Segment::Command(command) = &segments[i] {
                    commands.insert(command.clone(), CommandSlot::default());
                    proof {
                        lemma_registered_push(before, all[i as int]);
                    }
                } else {
                    proof {
                        lemma_registered_push(before, all[i as int]);
                    }
                }
                i = i + 1;
            }
            assert(all.take(i as int) =~= all);
        }
        StripCache {
            raw: cfg.status_right.clone(),
            segments,
            budget: cfg.status_right_length,
            interval: Duration::from_secs(cfg.effective_interval_seconds()),
            clock_texts: StrMap::new(),
            commands,
        }
    }

    pub fn is_enabled(&self) -> (r: bool)
        ensures
            r == self@.enabled(),
    {
        let chars = chars_of(self.raw.as_str());
        let bounds = trim_bounds(chars.as_slice());
        bounds.0 < bounds.1 && self.budget > 0
    }

    pub fn column_budget(&self) -> (r: usize)
        ensures
            r == self@.budget,
    {
        self.budget
    }

    pub fn command_interval(&self) -> (r: Duration)
        ensures
            r == self@.interval,
    {
        self.interval
    }

    pub fn segment_count(&self) -> (r: usize)
        ensures
            r == self@.segments.len(),
    {
        self.segments.len()
    }

    pub fn segment_at(&self, i: usize) -> (r: &Segment)
        requires
            i < self@.segments.len(),
        ensures
            r@ == self@.segments[i as int],
    {
        &self.segments[i]
    }

    pub fn has_clock(&self) -> (r: bool)
        ensures
            r == self@.has_clock(),
    {
        let mut i: usize = 0;
        while i < self.segments.len()
            invariant
                i <= self.segments@.len(),
                forall|k: int| 0 <= k < i ==> !(#[trigger] self@.segments[k] is Clock),
            decreases self.segments@.len() - i,
        {
            if let Segment::Clock(_) = &self.segments[i] {
                assert(self@.segments[i as int] is Clock);
                return true;
            }
            i = i + 1;
        }
        false
    }

    pub fn has_seconds_field(&self) -> (r: bool)
        ensures
            r == self@.has_seconds(),
    {
        let mut i: usize = 0;
        while i < self.segments.len()
            invariant
                i <= self.segments@.len(),
                forall|k: int|
                    0 <= k < i ==> !(#[trigger] self@.segments[k] matches SegmentView::Clock(fmt)
                        && shows_seconds(fmt)),
            decreases self.segments@.len() - i,
        {
            if let Segment::Clock(fmt) = &self.segments[i] {
                assert(self@.segments[i as int] == SegmentView::Clock(fmt@));
                if has_seconds_token(fmt.as_str()) {
                    return true;
                }
            }
            i = i + 1;
        }
        false
    }

    pub fn clock_period(&self) -> (r: Option<Duration>)
        ensures
            r == self@.clock_period(),
    {
        if !self.has_clock() {
            None
        } else if self.has_seconds_field() {
            Some(Duration::from_secs(1))
        } else {
            Some(Duration::from_secs(60))
        }
    }

    /// Format every clock run against `now`. Returns whether a cached text
    /// changed.
    pub fn refresh_clock(&mut self, now: &ClockTime) -> (changed: bool)
        requires
            old(self).wf(),
        ensures
            final(self).wf(),
            final(self)@ == old(self)@.refreshed(*now),
            changed == exists|fmt: Seq<char>| old(self)@.stale_clock(fmt, *now),
    {
        let ghost before = self@;
        let ghost all = before.segments;
        let mut changed: bool = false;
        let mut i: usize = 0;
        assert(self@.clock_texts =~= before.refreshed_by(all.take(0), *now));
        while i < self.segments.len()
            invariant
                i <= self.segments@.len(),
                self.wf(),
                before.segments == all,
                self@ == (StripView {
                    clock_texts: before.refreshed_by(all.take(i as int), *now),
                    ..before
                }),
                changed ==> exists|fmt: Seq<char>| before.stale_clock(fmt, *now),
                !changed ==> forall|k: int, fmt: Seq<char>|
                    0 <= k < i && #[trigger] all[k] == SegmentView::Clock(fmt)
                        ==> !#[trigger] before.stale_clock(fmt, *now),
            decreases self.segments@.len() - i,
        {
            let ghost seen = all.take(i as int);
            assert(all.take(i as int + 1) =~= seen.push(all[i as int]));
            let ghost cached = self@.clock_texts;
            let mut fresh: Option<(String, String)> = None;
            if let Segment::Clock(fmt) = &self.segments[i] {
                assert(all[i as int] == SegmentView::Clock(fmt@));
                assert(has_clock_run(all, fmt@));
                let text = format_clock(fmt.as_str(), now);
                let same = match self.clock_texts.get(fmt.as_str()) {
                    Some(current) => same_text(current.as_str(), text.as_str()),
                    None => false,
                };
                if !same {
                    fresh = Some((fmt.clone(), text));
                    assert(!seen.contains(SegmentView::Clock(fmt@)));
                    assert(before.stale_clock(fmt@, *now));
                } else {
                    assert(cached.insert(fmt@, clock_text(fmt@, *now)) =~= cached);
                    assert(!changed ==> !before.stale_clock(fmt@, *now)) by {
                        if seen.contains(SegmentView::Clock(fmt@)) {
                            let k = choose|k: int|
                                0 <= k < seen.len() && seen[k] == SegmentView::Clock(fmt@);
                            assert(all[k] == SegmentView::Clock(fmt@));
                        }
                    }
                }
            }
            proof {
                before.lemma_refreshed_push(seen, all[i as int], *now);
            }
            match fresh {
                Some((fmt, text)) => {
                    changed = true;
                    self.clock_texts.insert(fmt, text);
                },
                None => {},
            }
            i = i + 1;
        }
        proof {
            assert(all.take(i as int) =~= all);
            assert(self@.clock_texts =~= before.refreshed(*now).clock_texts);
            if !changed {
                assert forall|fmt: Seq<char>| !before.stale_clock(fmt, *now) by {
                    if has_clock_run(all, fmt) {
                        let k = choose|k: int|
                            0 <= k < all.len() && all[k] == SegmentView::Clock(fmt);
                        assert(all[k] == SegmentView::Clock(fmt));
                    }
                }
            }
        }
        changed
    }

    /// Commands due to run: never run, or last run at least the interval ago,
    /// and not running now.
    pub fn due_commands(&self, now: Instant) -> (r: Vec<String>)
        requires
            self.wf(),
        ensures
            views(r@).no_duplicates(),
            forall|k: Seq<char>| #[trigger] views(r@).contains(k) <==> self@.is_due(k, now),
    {
        let mut r: Vec<String> = Vec::new();
        let ghost order = self.commands.order();
        proof {
            self.commands.lemma_order();
            lemma_views_empty::<String>();
        }
        let total: usize = self.commands.len();
        let mut i: usize = 0;
        while i < total
            invariant
                self.wf(),
                i <= total,
                total == order.len(),
                order == self.commands.order(),
                order.no_duplicates(),
                self@.commands.dom() == order.to_set(),
                views(r@).no_duplicates(),
                forall|k: Seq<char>| #[trigger]
                    views(r@).contains(k) <==> order.take(i as int).contains(k) && self@.is_due(
                        k,
                        now,
                    ),
            decreases total - i,
        {
            let ghost seen = order.take(i as int);
            let ghost key = order[i as int];
            let ghost before = views(r@);
            assert(order.take(i as int + 1) =~= seen.push(key));
            assert(!seen.contains(key)) by {
                if seen.contains(key) {
                    let k = choose|k: int| 0 <= k < seen.len() && seen[k] == key;
                    assert(order[k] == order[i as int]);
                }
            }
            let slot = self.commands.value_at(i);
            let idle = !slot.in_flight && match slot.last_run {
                Some(last) => now.saturating_duration_since(last).nanos >= self.interval.nanos,
                None => true,
            };
            if idle {
                let command = self.commands.key_at(i).clone();
                proof {
                    lemma_views_push(r@, command);
                }
                r.push(command);
            }
            proof {
                assert forall|k: Seq<char>| #[trigger]
                    views(r@).contains(k) <==> order.take(i as int + 1).contains(k) && self@.is_due(
                        k,
                        now,
                    ) by {
                    lemma_contains_push(seen, key, k);
                    lemma_contains_push(before, key, k);
                }
                if idle {
                    assert(!before.contains(key));
                    lemma_no_duplicates_push(before, key);
                }
            }
            i = i + 1;
        }
        proof {
            assert(order.take(i as int) =~= order);
            assert forall|k: Seq<char>| #[trigger]
                views(r@).contains(k) <==> self@.is_due(k, now) by {
                assert(order.to_set().contains(k) == order.contains(k));
            }
        }
        r
    }

    /// The earliest instant at which some command may run, or `None` when each
    /// is running already or there are none.
    pub fn next_command_deadline(&self, now: Instant) -> (r: Option<Instant>)
        requires
            self.wf(),
        ensures
            self@.is_next_deadline(now, r),
    {
        let mut best: Option<Instant> = None;
        let ghost order = self.commands.order();
        proof {
            self.commands.lemma_order();
        }
        let total: usize = self.commands.len();
        let mut i: usize = 0;
        while i < total
            invariant
                self.wf(),
                i <= total,
                total == order.len(),
                order == self.commands.order(),
                self@.commands.dom() == order.to_set(),
                match best {
                    Some(at) => exists|k: Seq<char>| #[trigger] self@.may_run_at(k, now, at),
                    None => true,
                },
                forall|j: int|
                    0 <= j < i && !self@.commands[#[trigger] order[j]].in_flight ==> best is Some
                        && best->0.nanos <= self@.commands[order[j]].ready_at(
                        self@.interval,
                        now,
                    ).nanos,
            decreases total - i,
        {
            let ghost key = order[i as int];
            let slot = self.commands.value_at(i);
            if !slot.in_flight {
                let at = match slot.last_run {
                    Some(last) => match last.checked_add(self.interval) {
                        Some(at) => at,
                        None => now,
                    },
                    None => now,
                };
                assert(self@.may_run_at(key, now, at));
                let ghost prior = best;
                best = Instant::min_opt(best, Some(at));
                proof {
                    assert(best is Some);
                    if best->0 != at {
                        assert(prior is Some && best->0 == prior->0);
                        let k = choose|k: Seq<char>| #[trigger]
                            self@.may_run_at(k, now, prior->0);
                        assert(self@.may_run_at(k, now, best->0));
                    } else {
                        assert(self@.may_run_at(key, now, best->0));
                    }
                }
            }
            i = i + 1;
        }
        proof {
            assert forall|k: Seq<char>, at: Instant| #[trigger]
                self@.may_run_at(k, now, at) implies best is Some && best->0.nanos
                <= at.nanos by {
                assert(order.to_set().contains(k));
                let j = choose|j: int| 0 <= j < order.len() && order[j] == k;
                assert(order[j] == k);
            }
        }
        best
    }

    /// Record that a command was spawned, so that it is not spawned again
    /// while it runs.
    pub fn mark_command_started(&mut self, command: &str, now: Instant)
        requires
            old(self).wf(),
        ensures
            final(self).wf(),
            final(self)@ == old(self)@.started(command@, now),
    {
        let next = match self.commands.get(command) {
            Some(slot) => Some(
                CommandSlot {
                    last_value: copy_opt(&slot.last_value),
                    last_run: Some(now),
                    in_flight: true,
                },
            ),
            None => None,
        };
        match next {
            Some(slot) => {
                self.commands.insert(owned(command), slot);
            },
            None => {},
        }
    }

    /// Record that a command finished, with the value it produced if any.
    /// Returns whether the displayed value changed.
    pub fn finish_command(&mut self, command: &str, value: Option<String>) -> (changed: bool)
        requires
            old(self).wf(),
        ensures
            final(self).wf(),
            final(self)@ == old(self)@.finished(command@, opt_text(value)),
            changed == old(self)@.finish_changes(command@, opt_text(value)),
    {
        let (last_value, last_run) = match self.commands.get(command) {
            Some(slot) => (copy_opt(&slot.last_value), slot.last_run),
            None => {
                return false;
            },
        };
        match value {
            Some(text) => {
                let changed = match &last_value {
                    Some(current) => !same_text(current.as_str(), text.as_str()),
                    None => true,
                };
                self.commands.insert(
                    owned(command),
                    CommandSlot { last_value: Some(text), last_run, in_flight: false },
                );
                changed
            },
            None => {
                self.commands.insert(
                    owned(command),
                    CommandSlot { last_value, last_run, in_flight: false },
                );
                false
            },
        }
    }

    /// The cached text of a clock run, empty before its first refresh.
    pub fn clock_value(&self, fmt: &str) -> (r: String)
        requires
            self.wf(),
        ensures
            r@ == self@.clock_cached(fmt@),
    {
        match self.clock_texts.get(fmt) {
            Some(text) => text.clone(),
            None => {
                let r = String::new();
                assert(r@ =~= Seq::<char>::empty());
                r
            },
        }
    }

    /// The cached text of a command, empty before its first value.
    pub fn command_value(&self, command: &str) -> (r: String)
        requires
            self.wf(),
        ensures
            r@ == self@.command_cached(command@),
    {
        if let Some(slot) = self.commands.get(command) {
            if let Some(value) = &slot.last_value {
                return value.clone();
            }
        }
        let r = String::new();
        assert(r@ =~= Seq::<char>::empty());
        r
    }

    pub fn has_commands(&self) -> (r: bool)
        requires
            self.wf(),
        ensures
            r == self@.has_commands(),
    {
        proof {
            self.commands.lemma_order();
            let order = self.commands.order();
            if order.len() > 0 {
                assert(order.contains(order[0]));
                assert(order.to_set().contains(order[0]));
                assert(self@.commands.dom().contains(order[0]));
            } else {
                assert forall|k: Seq<char>| !self@.commands.dom().contains(k) by {
                    assert(order.to_set().contains(k) == order.contains(k));
                }
            }
        }
        self.commands.len() > 0
    }

    /// The schedule and value of one command.
    pub fn command_slot(&self, command: &str) -> (r: Option<&CommandSlot>)
        requires
            self.wf(),
        ensures
            match r {
                Some(slot) => self@.commands.dom().contains(command@) && slot@
                    == self@.commands[command@],
                None => !self@.commands.dom().contains(command@),
            },
    {
        self.commands.get(command)
    }
}

/// A command that was spawned is not due while it runs, at any instant.
pub proof fn law_running_command_is_not_due(
    strip: StripView,
    command: Seq<char>,
    started: Instant,
    now: Instant,
)
    ensures
        !strip.started(command, started).is_due(command, now),
{
}

/// A command that finished is due again exactly when the interval has passed
/// since it started, whatever it produced.
pub proof fn law_command_reruns_after_the_interval(
    strip: StripView,
    command: Seq<char>,
    started: Instant,
    value: Option<Seq<char>>,
    now: Instant,
)
    requires
        strip.commands.dom().contains(command),
    ensures
        strip.started(command, started).finished(command, value).is_due(command, now)
            <==> now.nanos_since(started) >= strip.interval.nanos,
{
}

/// A run without a value keeps the last good one on display; a run with a value
/// displays that value; no run touches another command.
pub proof fn law_last_good_value_is_shown(
    strip: StripView,
    command: Seq<char>,
    value: Option<Seq<char>>,
    other: Seq<char>,
)
    requires
        strip.commands.dom().contains(command),
        other != command,
    ensures
        strip.finished(command, value).command_cached(command) == (match value {
            Some(text) => text,
            None => strip.command_cached(command),
        }),
        strip.finished(command, value).command_cached(other) == strip.command_cached(other),
{
}

/// A finished command reports a change exactly when the text on display
/// changes, but for a first value that is empty.
pub proof fn law_reported_change_is_visible(
    strip: StripView,
    command: Seq<char>,
    value: Option<Seq<char>>,
)
    requires
        !(value == Some(Seq::<char>::empty()) && strip.commands.dom().contains(command)
            && strip.commands[command].last_value is None),
    ensures
        strip.finish_changes(command, value) <==> strip.finished(command, value).command_cached(
            command,
        ) != strip.command_cached(command),
{
}

/// The earliest deadline has passed exactly when some command is due, as long
/// as the clock can represent the next run of each command that is not running.
pub proof fn law_deadline_agrees_with_due(strip: StripView, now: Instant, next: Option<Instant>)
    requires
        strip.interval.nanos > 0,
        forall|k: Seq<char>| #[trigger]
            strip.commands.dom().contains(k) && !strip.commands[k].in_flight ==> (
            strip.commands[k].last_run matches Some(last) ==> last.plus(
                strip.interval,
            ) is Some),
        strip.is_next_deadline(now, next),
    ensures
        (next is Some && next->0.nanos <= now.nanos) <==> exists|k: Seq<char>|
            strip.is_due(k, now),
{
    if next is Some && next->0.nanos <= now.nanos {
        let k = choose|k: Seq<char>| #[trigger] strip.may_run_at(k, now, next->0);
        assert(strip.commands.dom().contains(k));
        assert(strip.is_due(k, now));
    }
    if exists|k: Seq<char>| strip.is_due(k, now) {
        let k = choose|k: Seq<char>| strip.is_due(k, now);
        assert(strip.commands.dom().contains(k));
        assert(strip.may_run_at(k, now, strip.commands[k].ready_at(strip.interval, now)));
    }
}

/// After a refresh every clock run shows the sampled time, and a second refresh
/// at the same time changes nothing.
pub proof fn law_refresh_settles_the_clock(strip: StripView, now: ClockTime, fmt: Seq<char>)
    requires
        has_clock_run(strip.segments, fmt),
    ensures
        strip.refreshed(now).clock_cached(fmt) == clock_text(fmt, now),
        forall|f: Seq<char>| !strip.refreshed(now).stale_clock(f, now),
        strip.refreshed(now).refreshed(now) == strip.refreshed(now),
{
    assert(strip.refreshed(now).refreshed(now).clock_texts =~= strip.refreshed(now).clock_texts);
}

/// A configured strip has the segments and the budget of its format. Where
/// commands can run each of the format's commands is registered, and no other;
/// none has run yet, so each is due at once. Where they cannot, none is.
pub proof fn law_configured_strip(
    status_right: Seq<char>,
    length: usize,
    secs: u64,
    syntax: Syntax,
    supported: bool,
    command: Seq<char>,
    now: Instant,
)
    ensures
        ({
            let strip = StripView::configured(status_right, length, secs, syntax, supported);
            &&& strip.raw == status_right
            &&& strip.segments == segments_of(status_right, syntax)
            &&& strip.budget == length
            &&& strip.interval.nanos == secs * 1_000_000_000
            &&& strip.commands.dom().contains(command) <==> supported && strip.segments.contains(
                SegmentView::Command(command),
            )
            &&& strip.is_due(command, now) <==> strip.commands.dom().contains(command)
            &&& strip.command_cached(command).len() == 0
            &&& forall|fmt: Seq<char>| strip.clock_cached(fmt).len() == 0
        }),
{
}

/// Commands run no more often than once a second, and else as often as asked.
pub proof fn law_interval_has_a_floor(cfg: StatusConfig)
    ensures
        cfg.status_interval == 0 ==> cfg.interval_seconds() == 1,
        cfg.status_interval > 0 ==> cfg.interval_seconds() == cfg.status_interval,
{
}

/// A strip shows something exactly where its format has a character that is not
/// blank, and its budget has a column.
pub proof fn law_blank_format_disables(strip: StripView)
    ensures
        strip.enabled() <==> strip.budget > 0 && exists|i: int|
            0 <= i < strip.raw.len() && !whitespace(#[trigger] strip.raw[i]),
{
    let (a, b) = law_trimming_takes_blank_space_only(strip.raw);
    assert(trimmed(strip.raw).len() == b - a);
    if a < b {
        assert(!whitespace(strip.raw[a]));
    }
}

/// The clock repaints each second where a format shows seconds, each minute where
/// only others do, and never without a clock.
#[verifier::spinoff_prover]
pub proof fn law_clock_repaints_in_time(strip: StripView)
    ensures
        (forall|i: int| 0 <= i < strip.segments.len() ==> !(#[trigger] strip.segments[i] is Clock))
            ==> strip.clock_period() is None,
        forall|i: int, fmt: Seq<char>, k: int|
            0 <= i < strip.segments.len() && #[trigger] strip.segments[i] == SegmentView::Clock(fmt)
                && 0 <= k && k + 1 < fmt.len() && #[trigger] fmt[k] == '%' && fmt[k + 1] == 'S'
                ==> strip.clock_period() is Some && strip.clock_period()->0.nanos == 1_000_000_000,
        (exists|i: int| 0 <= i < strip.segments.len() && #[trigger] strip.segments[i] is Clock) && (
        forall|i: int, fmt: Seq<char>, k: int|
            0 <= i < strip.segments.len() && #[trigger] strip.segments[i] == SegmentView::Clock(fmt)
                && 0 <= k && k + 1 < fmt.len() ==> !(#[trigger] fmt[k] == '%' && fmt[k + 1] == 'S'))
            ==> strip.clock_period() is Some && strip.clock_period()->0.nanos == 60_000_000_000,
{
    assert forall|i: int, fmt: Seq<char>, k: int|
        0 <= i < strip.segments.len() && #[trigger] strip.segments[i] == SegmentView::Clock(fmt)
            && 0 <= k && k + 1 < fmt.len() && #[trigger] fmt[k] == '%' && fmt[k + 1]
            == 'S' implies strip.clock_period() is Some && strip.clock_period()->0.nanos
        == 1_000_000_000 by {
        assert(strip.segments[i] is Clock);
        assert(shows_seconds(fmt));
        assert(strip.has_seconds());
    }
    if strip.has_seconds() {
        let i = choose|i: int|
            0 <= i < strip.segments.len() && (
            #[trigger] strip.segments[i] matches SegmentView::Clock(fmt) && shows_seconds(fmt));
        let fmt = strip.segments[i]->Clock_0;
        assert(strip.segments[i] == SegmentView::Clock(fmt));
        let k = choose|k: int|
            0 <= k && k + 1 < fmt.len() && #[trigger] fmt[k] == '%' && fmt[k + 1] == 'S';
        assert(fmt[k] == '%' && fmt[k + 1] == 'S');
    }
}

/// A refresh reports a change exactly where it changed a cached text. It changes
/// the texts of the format's own clock runs only, and nothing else of the strip.
pub proof fn law_refresh_reports_what_it_changed(strip: StripView, now: ClockTime, other: Seq<char>)
    ensures
        (exists|fmt: Seq<char>| strip.stale_clock(fmt, now)) <==> strip.refreshed(now).clock_texts
            != strip.clock_texts,
        !strip.segments.contains(SegmentView::Clock(other)) ==> strip.refreshed(now).clock_cached(
            other,
        ) == strip.clock_cached(other),
        strip.refreshed(now) == (StripView {
            clock_texts: strip.refreshed(now).clock_texts,
            ..strip
        }),
{
    let after = strip.refreshed(now).clock_texts;
    if exists|fmt: Seq<char>| strip.stale_clock(fmt, now) {
        let fmt = choose|fmt: Seq<char>| strip.stale_clock(fmt, now);
        assert(after.dom().contains(fmt) && after[fmt] == clock_text(fmt, now));
    } else {
        assert forall|k: Seq<char>| #[trigger] after.dom().contains(k) implies
            strip.clock_texts.dom().contains(k) && strip.clock_texts[k] == after[k] by {
            assert(!strip.stale_clock(k, now));
        }
        assert(after =~= strip.clock_texts);
    }
}

/// A strip without a configuration shows nothing and runs nothing.
pub proof fn law_no_configuration_no_strip(command: Seq<char>, now: Instant)
    ensures
        !StripView::nothing().enabled(),
        !StripView::nothing().is_due(command, now),
        StripView::nothing().clock_period() is None,
{
}

/// A command that ran may run again one interval after its last start; one that
/// never ran, or whose next start the clock cannot represent, at once.
pub proof fn law_ready_after_the_interval(slot: CommandSlotView, interval: Duration, now: Instant)
    ensures
        slot.last_run is None ==> slot.ready_at(interval, now) == now,
        slot.last_run matches Some(last) ==> (if last.plus(interval) is Some {
            slot.ready_at(interval, now).nanos == last.nanos + interval.nanos
        } else {
            slot.ready_at(interval, now) == now
        }),
{
}

} // verus!
