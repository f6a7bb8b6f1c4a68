//! Spans and points of time, counted in whole nanoseconds.
//!
//! [`Duration`] and [`Instant`] are plain numbers, so every rule of the library
//! that depends on time is a statement about integers. The code around the
//! library reads the clock and converts.

use vstd::prelude::*;

verus! {

/// A span of time.
#[derive(Clone, Copy, Debug, Default, PartialEq, Eq, PartialOrd, Ord, Hash, Structural)]
pub struct Duration {
    pub nanos: u128,
}

/// A point of time, counted from an origin that all readings of one clock share.
#[derive(Clone, Copy, Debug, PartialEq, Eq, PartialOrd, Ord, Hash, Structural)]
pub struct Instant {
    pub nanos: u128,
}

impl Duration {
    /// The span of length zero.
    pub fn zero() -> (d: Duration)
        ensures
            d.nanos == 0,
    {
        Duration { nanos: 0 }
    }

    pub fn from_nanos(nanos: u64) -> (d: Duration)
        ensures
            d.nanos == nanos,
    {
        Duration { nanos: nanos as u128 }
    }

    pub fn from_millis(millis: u64) -> (d: Duration)
        ensures
            d.nanos == millis * 1_000_000,
    {
        Duration { nanos: millis as u128 * 1_000_000 }
    }

    pub fn from_secs(secs: u64) -> (d: Duration)
        ensures
            d.nanos == secs * 1_000_000_000,
    {
        Duration { nanos: secs as u128 * 1_000_000_000 }
    }

    pub fn is_zero(&self) -> (b: bool)
        ensures
            b == (self.nanos == 0),
    {
        self.nanos == 0
    }

    /// The shorter of two spans, as a value for contracts.
    pub open spec fn spec_min(self, other: Duration) -> Duration {
        if other.nanos < self.nanos {
            other
        } else {
            self
        }
    }

    /// The shorter of two spans.
    pub fn min(self, other: Duration) -> (d: Duration)
        ensures
            d == self.spec_min(other),
    {
        if other.nanos < self.nanos {
            other
        } else {
            self
        }
    }
}

impl Instant {
    pub fn from_nanos(nanos: u128) -> (i: Instant)
        ensures
            i.nanos == nanos,
    {
        Instant { nanos }
    }

    /// The span from `earlier` to `self`, zero where `earlier` is the later one.
    pub open spec fn spec_since(self, earlier: Instant) -> Duration {
        Duration {
            nanos: if self.nanos >= earlier.nanos {
                (self.nanos - earlier.nanos) as u128
            } else {
                0
            },
        }
    }

    /// The span from `earlier` to `self`, zero where `earlier` is the later one.
    pub fn duration_since(self, earlier: Instant) -> (d: Duration)
        ensures
            d == self.spec_since(earlier),
    {
        if self.nanos >= earlier.nanos {
            Duration { nanos: self.nanos - earlier.nanos }
        } else {
            Duration { nanos: 0 }
        }
    }

    /// The point `d` after `self`, or the last representable point.
    pub open spec fn spec_after(self, d: Duration) -> Instant {
        Instant {
            nanos: if self.nanos + d.nanos <= u128::MAX {
                (self.nanos + d.nanos) as u128
            } else {
                u128::MAX
            },
        }
    }

    /// The point `d` after `self`, or the last representable point.
    pub fn saturating_add(self, d: Duration) -> (i: Instant)
        ensures
            i == self.spec_after(d),
    {
        Instant { nanos: self.nanos.saturating_add(d.nanos) }
    }

    /// The point `d` before `self`, if there is one.
    pub fn checked_sub(self, d: Duration) -> (i: Option<Instant>)
        ensures
            i == (if d.nanos <= self.nanos {
                Some(Instant { nanos: (self.nanos - d.nanos) as u128 })
            } else {
                None
            }),
    {
        if d.nanos <= self.nanos {
            Some(Instant { nanos: self.nanos - d.nanos })
        } else {
            None
        }
    }
}

/// Instants and spans count in whole nanoseconds: the instant a span later lies exactly that
/// much later, as far as there is one, and the span between two instants is their distance,
/// or nothing where they come in the wrong order.
pub proof fn law_time_adds_up(a: Instant, b: Instant, d: Duration, e: Duration)
    ensures
        a.nanos + d.nanos <= u128::MAX ==> a.spec_after(d).nanos == a.nanos + d.nanos,
        a.nanos + d.nanos > u128::MAX ==> a.spec_after(d).nanos == u128::MAX,
        a.nanos <= b.nanos ==> a.nanos + b.spec_since(a).nanos == b.nanos,
        b.nanos <= a.nanos ==> b.spec_since(a).nanos == 0,
        d.spec_min(e).nanos <= d.nanos,
        d.spec_min(e).nanos <= e.nanos,
        d.spec_min(e) == d || d.spec_min(e) == e,
{
}

} // verus!
