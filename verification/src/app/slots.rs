//! The push lane: source-keyed status values that callers write and that
//! `#{slot:NAME}` tokens render.

use vstd::prelude::*;

use crate::table::StrMap;
use crate::text::{owned, same_text};
use crate::time::{Duration, Instant, LAST_INSTANT_NANOS};

verus! {

/// Distinct sources that the push lane keeps at once.
pub const MAX_STATUS_SLOT_SOURCES: usize = 32;

/// One pushed value: the text, when it was reported, and how long it lasts.
#[derive(Debug)]
pub struct Slot {
    pub text: String,
    pub reported_at: Instant,
    pub ttl: Option<Duration>,
}

/// One pushed value, with its text as characters.
pub struct SlotView {
    pub text: Seq<char>,
    pub reported_at: Instant,
    pub ttl: Option<Duration>,
}

impl View for Slot {
    type V = SlotView;

    open spec fn view(&self) -> SlotView {
        SlotView { text: self.text@, reported_at: self.reported_at, ttl: self.ttl }
    }
}

impl SlotView {
    /// A value with a TTL ends at its deadline, and at once where the clock
    /// cannot represent the deadline.
    pub open spec fn expired(self, now: Instant) -> bool {
        match self.ttl {
            Some(ttl) => match self.reported_at.plus(ttl) {
                Some(deadline) => now.nanos >= deadline.nanos,
                None => now.nanos >= self.reported_at.nanos,
            },
            None => false,
        }
    }
}

impl Slot {
    pub fn is_expired(&self, now: Instant) -> (r: bool)
        ensures
            r == self@.expired(now),
    {
        match self.ttl {
            Some(ttl) => {
                let deadline = match self.reported_at.checked_add(ttl) {
                    Some(at) => at,
                    None => self.reported_at,
                };
                now.nanos >= deadline.nanos
            },
            None => false,
        }
    }
}

/// Pushed values by source, and the last accepted sequence number of each.
pub struct SlotStore {
    slots: StrMap<Slot>,
    seqs: StrMap<u64>,
}

/// The contents of a slot store.
pub struct SlotStoreView {
    pub slots: Map<Seq<char>, SlotView>,
    pub seqs: Map<Seq<char>, u64>,
}

impl View for SlotStore {
    type V = SlotStoreView;

    closed spec fn view(&self) -> SlotStoreView {
        SlotStoreView { slots: self.slots@, seqs: self.seqs@ }
    }
}

impl SlotStoreView {
    /// A store without values.
    pub open spec fn nothing() -> SlotStoreView {
        SlotStoreView { slots: Map::empty(), seqs: Map::empty() }
    }

    /// `source` holds a value that has not expired.
    pub open spec fn live(self, source: Seq<char>, now: Instant) -> bool {
        self.slots.dom().contains(source) && !self.slots[source].expired(now)
    }

    /// What `source` shows at `now`.
    pub open spec fn shown(self, source: Seq<char>, now: Instant) -> Option<Seq<char>> {
        if self.live(source, now) {
            Some(self.slots[source].text)
        } else {
            None
        }
    }

    /// The store without expired values and without the sequence numbers of
    /// sources that hold nothing.
    pub open spec fn purged(self, now: Instant) -> SlotStoreView {
        SlotStoreView {
            slots: Map::new(|k: Seq<char>| self.live(k, now), |k: Seq<char>| self.slots[k]),
            seqs: Map::new(
                |k: Seq<char>| self.seqs.dom().contains(k) && self.live(k, now),
                |k: Seq<char>| self.seqs[k],
            ),
        }
    }

    /// A report is accepted unless its number fails to advance the last one.
    pub open spec fn accepts(self, source: Seq<char>, seq: Option<u64>) -> bool {
        match seq {
            Some(n) => self.seqs.dom().contains(source) ==> n > self.seqs[source],
            None => true,
        }
    }

    /// The store after a report.
    pub open spec fn after_set(
        self,
        source: Seq<char>,
        text: Seq<char>,
        seq: Option<u64>,
        ttl: Option<Duration>,
        now: Instant,
    ) -> SlotStoreView {
        if self.accepts(source, seq) {
            SlotStoreView {
                slots: self.slots.insert(source, SlotView { text, reported_at: now, ttl }),
                seqs: match seq {
                    Some(n) => self.seqs.insert(source, n),
                    None => self.seqs,
                },
            }
        } else {
            self
        }
    }

    /// The store after `source` was cleared.
    pub open spec fn after_clear(self, source: Seq<char>) -> SlotStoreView {
        SlotStoreView { slots: self.slots.remove(source), seqs: self.seqs.remove(source) }
    }
}

impl Default for SlotStore {
    fn default() -> (r: SlotStore)
        ensures
            r.wf(),
            r@ == SlotStoreView::nothing(),
    {
        SlotStore { slots: StrMap::new(), seqs: StrMap::new() }
    }
}

impl SlotStore {
    pub closed spec fn wf(&self) -> bool {
        self.slots.wf() && self.seqs.wf()
    }

    /// A store holds finitely many sources.
    pub proof fn lemma_finite(&self)
        requires
            self.wf(),
        ensures
            self@.slots.dom().finite(),
            self@.seqs.dom().finite(),
    {
        self.slots.lemma_order();
        self.seqs.lemma_order();
    }

    /// Drop values whose TTL has elapsed, along with their sequence numbers.
    pub fn purge_expired(&mut self, now: Instant)
        requires
            old(self).wf(),
        ensures
            final(self).wf(),
            final(self)@ == old(self)@.purged(now),
    {
        let ghost before = self@;
        let mut i: usize = 0;
        while i < self.slots.len()
            invariant
                self.wf(),
                before.seqs == self.seqs@,
                i <= self.slots.order().len(),
                forall|k: Seq<char>| #[trigger]
                    self.slots@.dom().contains(k) ==> before.slots.dom().contains(k)
                        && self.slots@[k] == before.slots[k],
                forall|k: Seq<char>| #[trigger]
                    before.live(k, now) ==> self.slots@.dom().contains(k),
                forall|j: int|
                    0 <= j < i ==> !self.slots@[#[trigger] self.slots.order()[j]].expired(now),
            decreases self.slots.order().len() - i,
        {
            let ghost order = self.slots.order();
            proof {
                self.slots.lemma_order();
            }
            if self.slots.value_at(i).is_expired(now) {
                let ghost gone = order[i as int];
                self.slots.remove_at(i);
                proof {
                    assert forall|j: int| 0 <= j < i implies !self.slots@[
                        #[trigger] self.slots.order()[j]
                    ].expired(now) by {
                        assert(self.slots.order()[j] == order[j]);
                        assert(order[j] != gone);
                    }
                    assert(!before.live(gone, now));
                }
            } else {
                i = i + 1;
            }
        }
        proof {
            self.slots.lemma_order();
            assert forall|k: Seq<char>| self.slots@.dom().contains(k) implies before.live(
                k,
                now,
            ) by {
                let j = crate::table::position(self.slots.order(), k);
                assert(self.slots.order().contains(k));
                assert(self.slots.order()[j] == k);
            }
            assert(self.slots@ =~= before.purged(now).slots);
        }
        let ghost kept = self.slots@;
        let mut s: usize = 0;
        while s < self.seqs.len()
            invariant
                self.wf(),
                self.slots@ == kept,
                kept == before.purged(now).slots,
                s <= self.seqs.order().len(),
                forall|k: Seq<char>| #[trigger]
                    self.seqs@.dom().contains(k) ==> before.seqs.dom().contains(k) && self.seqs@[k]
                        == before.seqs[k],
                forall|k: Seq<char>| #[trigger]
                    before.seqs.dom().contains(k) && before.live(k, now)
                        ==> self.seqs@.dom().contains(k),
                forall|j: int|
                    0 <= j < s ==> before.live(#[trigger] self.seqs.order()[j], now),
            decreases self.seqs.order().len() - s,
        {
            let ghost order = self.seqs.order();
            proof {
                self.seqs.lemma_order();
            }
            if self.slots.contains_key(self.seqs.key_at(s).as_str()) {
                s = s + 1;
            } else {
                let ghost gone = order[s as int];
                self.seqs.remove_at(s);
                proof {
                    assert forall|j: int| 0 <= j < s implies before.live(
                        #[trigger] self.seqs.order()[j],
                        now,
                    ) by {
                        assert(self.seqs.order()[j] == order[j]);
                    }
                    assert(!before.live(gone, now));
                }
            }
        }
        proof {
            self.seqs.lemma_order();
            assert forall|k: Seq<char>| self.seqs@.dom().contains(k) implies before.live(
                k,
                now,
            ) by {
                let j = crate::table::position(self.seqs.order(), k);
                assert(self.seqs.order().contains(k));
                assert(self.seqs.order()[j] == k);
            }
            assert(self.seqs@ =~= before.purged(now).seqs);
        }
    }

    /// Whether accepting `source` would push the store past its ceiling.
    /// Expired values are reclaimed first.
    pub fn at_capacity_for(&mut self, source: &str, now: Instant) -> (r: bool)
        requires
            old(self).wf(),
        ensures
            final(self).wf(),
            final(self)@ == old(self)@.purged(now),
            r == (!final(self)@.slots.dom().contains(source@) && final(self)@.slots.dom().len()
                >= MAX_STATUS_SLOT_SOURCES),
    {
        self.purge_expired(now);
        !self.slots.contains_key(source) && self.slots.len() >= MAX_STATUS_SLOT_SOURCES
    }

    /// Accept a report only when its number advances the last one seen for the
    /// source. A report without a number is always accepted.
    pub fn accept_seq(&mut self, source: &str, seq: Option<u64>) -> (r: bool)
        requires
            old(self).wf(),
        ensures
            final(self).wf(),
            r == old(self)@.accepts(source@, seq),
            final(self)@.slots == old(self)@.slots,
            final(self)@.seqs == match seq {
                Some(n) if r => old(self)@.seqs.insert(source@, n),
                _ => old(self)@.seqs,
            },
    {
        let n = match seq {
            Some(n) => n,
            None => {
                return true;
            },
        };
        if let Some(last) = self.seqs.get(source) {
            if n <= *last {
                return false;
            }
        }
        self.seqs.insert(owned(source), n);
        true
    }

    /// Set the value for `source`. Returns whether what it shows changed.
    pub fn set(
        &mut self,
        source: String,
        text: String,
        seq: Option<u64>,
        ttl: Option<Duration>,
        now: Instant,
    ) -> (r: bool)
        requires
            old(self).wf(),
        ensures
            final(self).wf(),
            final(self)@ == old(self)@.after_set(source@, text@, seq, ttl, now),
            r == (old(self)@.accepts(source@, seq) && old(self)@.shown(source@, now) != Some(
                text@,
            )),
    {
        if !self.accept_seq(source.as_str(), seq) {
            return false;
        }
        let changed = match self.get(source.as_str(), now) {
            Some(previous) => !same_text(previous, text.as_str()),
            None => true,
        };
        self.slots.insert(source, Slot { text, reported_at: now, ttl });
        changed
    }

    /// Remove the value for `source` and its sequence number. Returns whether a
    /// visible value was dropped.
    pub fn clear(&mut self, source: &str, now: Instant) -> (r: bool)
        requires
            old(self).wf(),
        ensures
            final(self).wf(),
            final(self)@ == old(self)@.after_clear(source@),
            r == (old(self)@.shown(source@, now) is Some),
    {
        let was_visible = self.get(source, now).is_some();
        self.slots.remove(source);
        self.seqs.remove(source);
        was_visible
    }

    /// Current value for `source`, or `None` when unset or expired.
    pub fn get(&self, source: &str, now: Instant) -> (r: Option<&str>)
        requires
            self.wf(),
        ensures
            match r {
                Some(text) => self@.shown(source@, now) == Some(text@),
                None => self@.shown(source@, now) is None,
            },
    {
        match self.slots.get(source) {
            Some(slot) => if slot.is_expired(now) {
                None
            } else {
                Some(slot.text.as_str())
            },
            None => None,
        }
    }

    /// The text a slot shows; empty when unset or expired.
    pub fn resolve(&self, name: &str, now: Instant) -> (r: String)
        requires
            self.wf(),
        ensures
            r@ == match self@.shown(name@, now) {
                Some(text) => text,
                None => Seq::empty(),
            },
    {
        match self.get(name, now) {
            Some(text) => owned(text),
            None => String::new(),
        }
    }
}

// --- laws -------------------------------------------------------------------

/// A value that has expired stays expired.
pub proof fn law_expiry_is_final(slot: SlotView, now: Instant, later: Instant)
    requires
        slot.expired(now),
        now.nanos <= later.nanos,
    ensures
        slot.expired(later),
{
}

/// An accepted value is what its source shows until its TTL ends; a value
/// without a TTL never ends.
pub proof fn law_set_is_shown(
    store: SlotStoreView,
    source: Seq<char>,
    text: Seq<char>,
    seq: Option<u64>,
    ttl: Option<Duration>,
    now: Instant,
    later: Instant,
)
    requires
        store.accepts(source, seq),
    ensures
        store.after_set(source, text, seq, ttl, now).shown(source, later) == (if (SlotView {
            text,
            reported_at: now,
            ttl,
        }).expired(later) {
            None
        } else {
            Some(text)
        }),
        ttl is None ==> store.after_set(source, text, seq, ttl, now).shown(source, later) == Some(
            text,
        ),
{
}

/// The last writer wins by number: after a numbered report, an older or equal
/// number is ignored and a newer one is accepted.
pub proof fn law_newer_number_wins(
    store: SlotStoreView,
    source: Seq<char>,
    text: Seq<char>,
    n: u64,
    ttl: Option<Duration>,
    now: Instant,
    m: u64,
)
    requires
        store.accepts(source, Some(n)),
    ensures
        store.after_set(source, text, Some(n), ttl, now).accepts(source, Some(m)) <==> m > n,
{
}

/// A cleared source shows nothing and takes any number again.
pub proof fn law_clear_starts_clean(
    store: SlotStoreView,
    source: Seq<char>,
    seq: Option<u64>,
    now: Instant,
)
    ensures
        store.after_clear(source).shown(source, now) is None,
        store.after_clear(source).accepts(source, seq),
{
}

/// Writing or clearing one source leaves every other source alone.
pub proof fn law_sources_are_independent(
    store: SlotStoreView,
    source: Seq<char>,
    other: Seq<char>,
    text: Seq<char>,
    seq: Option<u64>,
    ttl: Option<Duration>,
    now: Instant,
    later: Instant,
    n: Option<u64>,
)
    requires
        source != other,
    ensures
        store.after_set(source, text, seq, ttl, now).shown(other, later) == store.shown(
            other,
            later,
        ),
        store.after_set(source, text, seq, ttl, now).accepts(other, n) == store.accepts(other, n),
        store.after_clear(source).shown(other, later) == store.shown(other, later),
        store.after_clear(source).accepts(other, n) == store.accepts(other, n),
{
}

/// Reclaiming expired values never changes what is shown, now or later.
pub proof fn law_purge_keeps_what_is_shown(
    store: SlotStoreView,
    source: Seq<char>,
    now: Instant,
    later: Instant,
)
    requires
        now.nanos <= later.nanos,
    ensures
        store.purged(now).shown(source, later) == store.shown(source, later),
{
}

/// After a purge, a source that shows nothing takes any number again.
pub proof fn law_purge_reclaims_numbers(
    store: SlotStoreView,
    source: Seq<char>,
    seq: Option<u64>,
    now: Instant,
)
    requires
        store.shown(source, now) is None,
    ensures
        !store.purged(now).slots.dom().contains(source),
        store.purged(now).accepts(source, seq),
{
}

/// Purging twice at one instant is purging once.
pub proof fn law_purge_is_idempotent(store: SlotStoreView, now: Instant)
    ensures
        store.purged(now).purged(now) == store.purged(now),
{
    let once = store.purged(now);
    assert(once.purged(now).slots =~= once.slots);
    assert(once.purged(now).seqs =~= once.seqs);
}

/// Setting and clearing report exactly whether what the source shows changed,
/// where the new value does not end at once.
pub proof fn law_reports_follow_the_display(
    store: SlotStoreView,
    source: Seq<char>,
    text: Seq<char>,
    seq: Option<u64>,
    ttl: Option<Duration>,
    now: Instant,
)
    ensures
        !(SlotView { text, reported_at: now, ttl }).expired(now) ==> ((store.accepts(source, seq)
            && store.shown(source, now) != Some(text)) <==> (store.after_set(
            source,
            text,
            seq,
            ttl,
            now,
        ).shown(source, now) != store.shown(source, now))),
        store.shown(source, now) is Some <==> store.after_clear(source).shown(source, now)
            != store.shown(source, now),
{
}

/// A value lasts for its time to live, counted from its report: until just before
/// the deadline it is shown, from the deadline on it is not.
pub proof fn law_value_lasts_its_time(
    store: SlotStoreView,
    source: Seq<char>,
    text: Seq<char>,
    seq: Option<u64>,
    ttl: Duration,
    now: Instant,
    later: Instant,
)
    requires
        store.accepts(source, seq),
        now.nanos + ttl.nanos <= LAST_INSTANT_NANOS,
    ensures
        later.nanos < now.nanos + ttl.nanos ==> store.after_set(
            source,
            text,
            seq,
            Some(ttl),
            now,
        ).shown(source, later) == Some(text),
        later.nanos >= now.nanos + ttl.nanos ==> store.after_set(
            source,
            text,
            seq,
            Some(ttl),
            now,
        ).shown(source, later) is None,
{
}

/// A report that is not accepted changes nothing.
pub proof fn law_stale_report_changes_nothing(
    store: SlotStoreView,
    source: Seq<char>,
    text: Seq<char>,
    n: u64,
    ttl: Option<Duration>,
    now: Instant,
)
    requires
        store.seqs.dom().contains(source),
        n <= store.seqs[source],
    ensures
        store.after_set(source, text, Some(n), ttl, now) == store,
        store.accepts(source, None),
{
}

/// A value without a time to live stays; one whose end the clock cannot represent is
/// never shown.
pub proof fn law_lasting_values(
    store: SlotStoreView,
    source: Seq<char>,
    text: Seq<char>,
    seq: Option<u64>,
    ttl: Duration,
    now: Instant,
    later: Instant,
)
    requires
        store.accepts(source, seq),
        now.nanos <= later.nanos,
    ensures
        store.after_set(source, text, seq, None, now).shown(source, later) == Some(text),
        now.nanos + ttl.nanos > LAST_INSTANT_NANOS ==> store.after_set(
            source,
            text,
            seq,
            Some(ttl),
            now,
        ).shown(source, later) is None,
{
}

/// A store that nothing was pushed to shows nothing and accepts any number.
pub proof fn law_fresh_store_is_empty(source: Seq<char>, seq: Option<u64>, now: Instant)
    ensures
        SlotStoreView::nothing().shown(source, now) is None,
        SlotStoreView::nothing().accepts(source, seq),
{
}

/// A report without a number leaves the last number in force, and one with a number
/// puts its own in force, for its own source only.
pub proof fn law_numbers_stay_in_force(
    store: SlotStoreView,
    source: Seq<char>,
    other: Seq<char>,
    text: Seq<char>,
    n: u64,
    m: u64,
    ttl: Option<Duration>,
    now: Instant,
)
    ensures
        store.after_set(source, text, None, ttl, now).accepts(source, Some(n)) == store.accepts(
            source,
            Some(n),
        ),
        store.accepts(source, Some(n)) ==> (store.after_set(
            source,
            text,
            Some(n),
            ttl,
            now,
        ).accepts(source, Some(m)) <==> m > n),
        other != source ==> store.after_set(source, text, Some(n), ttl, now).accepts(
            other,
            Some(m),
        ) == store.accepts(other, Some(m)),
{
}

} // verus!
