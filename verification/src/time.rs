//! Points in time and spans between them, on one monotonic clock.

use vstd::prelude::*;

verus! {

/// Nanoseconds in a second.
pub const NANOS_PER_SEC: u128 = 1_000_000_000;

/// Nanoseconds in a millisecond.
pub const NANOS_PER_MILLI: u128 = 1_000_000;

/// The last representable instant: the clock counts whole seconds in a signed
/// 64-bit number.
pub const LAST_INSTANT_NANOS: u128 = 9_223_372_036_854_775_807_999_999_999;

/// A span of time in nanoseconds.
#[derive(Debug, Clone, Copy, PartialEq, Eq, Structural)]
pub struct Duration {
    pub nanos: u128,
}

impl Duration {
    pub open spec fn secs(secs: u64) -> Duration {
        Duration { nanos: (secs * NANOS_PER_SEC) as u128 }
    }

    pub open spec fn millis(millis: u64) -> Duration {
        Duration { nanos: (millis * NANOS_PER_MILLI) as u128 }
    }

    pub fn from_secs(secs: u64) -> (r: Duration)
        ensures
            r == Duration::secs(secs),
            r.nanos == secs * NANOS_PER_SEC,
    {
        Duration { nanos: secs as u128 * NANOS_PER_SEC }
    }

    pub fn from_millis(millis: u64) -> (r: Duration)
        ensures
            r == Duration::millis(millis),
            r.nanos == millis * NANOS_PER_MILLI,
    {
        Duration { nanos: millis as u128 * NANOS_PER_MILLI }
    }
}

/// A point in time: nanoseconds since the origin of the monotonic clock.
#[derive(Debug, Clone, Copy, PartialEq, Eq, Structural)]
pub struct Instant {
    pub nanos: u128,
}

impl Instant {
    /// The instant `span` later, where the clock can represent it.
    pub open spec fn plus(self, span: Duration) -> Option<Instant> {
        if self.nanos + span.nanos <= LAST_INSTANT_NANOS {
            Some(Instant { nanos: (self.nanos + span.nanos) as u128 })
        } else {
            None
        }
    }

    pub fn checked_add(self, span: Duration) -> (r: Option<Instant>)
        ensures
            r == self.plus(span),
    {
        match self.nanos.checked_add(span.nanos) {
            Some(nanos) => if nanos <= LAST_INSTANT_NANOS {
                Some(Instant { nanos })
            } else {
                None
            },
            None => None,
        }
    }

    /// Nanoseconds from `earlier` to this instant, zero when it comes first.
    pub open spec fn nanos_since(self, earlier: Instant) -> nat {
        if self.nanos >= earlier.nanos {
            (self.nanos - earlier.nanos) as nat
        } else {
            0
        }
    }

    pub fn saturating_duration_since(self, earlier: Instant) -> (r: Duration)
        ensures
            r.nanos == self.nanos_since(earlier),
    {
        if self.nanos >= earlier.nanos {
            Duration { nanos: self.nanos - earlier.nanos }
        } else {
            Duration { nanos: 0 }
        }
    }

    /// The earlier of two optional instants.
    pub open spec fn earliest(a: Option<Instant>, b: Option<Instant>) -> Option<Instant> {
        match (a, b) {
            (Some(x), Some(y)) => Some(if y.nanos < x.nanos {
                y
            } else {
                x
            }),
            (Some(x), None) => Some(x),
            (None, y) => y,
        }
    }

    pub fn min_opt(a: Option<Instant>, b: Option<Instant>) -> (r: Option<Instant>)
        ensures
            r == Instant::earliest(a, b),
    {
        match (a, b) {
            (Some(x), Some(y)) => if y.nanos < x.nanos {
                Some(y)
            } else {
                Some(x)
            },
            (Some(x), None) => Some(x),
            (None, y) => y,
        }
    }
}

/// A span later is that span away, and the units count as they should.
pub proof fn law_spans_are_exact(at: Instant, span: Duration, secs: u64, millis: u64)
    ensures
        at.plus(span) matches Some(later) ==> later.nanos_since(at) == span.nanos,
        at.nanos_since(at) == 0,
        Duration::secs(secs).nanos == secs * 1_000_000_000,
        Duration::millis(millis).nanos == millis * 1_000_000,
{
}

/// The earlier of two instants is one of them and no later than the other; an
/// instant that is missing makes no difference.
pub proof fn law_earliest_is_the_earlier(a: Instant, b: Instant)
    ensures
        Instant::earliest(Some(a), Some(b)) matches Some(e) && (e == a || e == b) && e.nanos
            <= a.nanos && e.nanos <= b.nanos,
        Instant::earliest(Some(a), None) == Some(a),
        Instant::earliest(None, Some(b)) == Some(b),
        Instant::earliest(None, None) is None,
{
}

} // verus!
