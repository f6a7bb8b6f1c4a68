//! Members of a router and what is known of their load.

use vstd::prelude::*;

use crate::double::{Double, ONE};
use crate::meter::{Meter, PeakEwmaState, Sample};
use crate::time::Instant;

verus! {

/// Load of a member, over all routers that it belongs to.
#[derive(Debug)]
pub struct MemberState {
    /// Outstanding calls. A signal, never a cap.
    pub in_flight: usize,
    /// How often the member was chosen.
    pub pick_count: u64,
    /// The meter's reading; nothing before the first fold.
    pub meter: Option<PeakEwmaState>,
}

/// One more than `n`, from zero again after the largest.
pub open spec fn next_count(n: int, max: int) -> int {
    if n == max {
        0
    } else {
        n + 1
    }
}

impl MemberState {
    pub fn new() -> (s: MemberState)
        ensures
            s.in_flight == 0,
            s.pick_count == 0,
            s.meter is None,
    {
        MemberState { in_flight: 0, pick_count: 0, meter: None }
    }

    /// A call begins.
    pub fn enter(&mut self)
        ensures
            final(self).in_flight == next_count(old(self).in_flight as int, usize::MAX as int),
            old(self).in_flight < usize::MAX ==> final(self).in_flight == old(self).in_flight + 1,
            final(self).pick_count == old(self).pick_count,
            final(self).meter == old(self).meter,
    {
        self.in_flight = if self.in_flight == usize::MAX {
            0
        } else {
            self.in_flight + 1
        };
    }

    /// What a meter sees of a call that began at `started` and completed at `now`.
    pub open spec fn sample_at(&self, started: Instant, now: Instant, ok: bool) -> Sample {
        Sample {
            latency: now.spec_since(started),
            at: now,
            last_update: match self.meter {
                Some(m) => m.last_update,
                None => now,
            },
            in_flight: self.in_flight,
            ok,
        }
    }

    /// A call that began at `started` has completed at `now`: it is metered and counted
    /// as a pick. It stays outstanding until it leaves.
    pub fn complete(&mut self, meter: &Option<Meter>, started: Instant, now: Instant, ok: bool)
        ensures
            final(self).in_flight == old(self).in_flight,
            final(self).pick_count == next_count(old(self).pick_count as int, u64::MAX as int),
            old(self).pick_count < u64::MAX ==> final(self).pick_count == old(self).pick_count + 1,
            match meter {
                Some(m) => {
                    &&& final(self).meter is Some
                    &&& m.folds(
                        old(self).meter,
                        old(self).sample_at(started, now, ok),
                        final(self).meter->0,
                    )
                },
                None => final(self).meter == old(self).meter,
            },
    {
        if let Some(m) = meter {
            let sample = Sample {
                latency: now.duration_since(started),
                at: now,
                last_update: match self.meter {
                    Some(reading) => reading.last_update,
                    None => now,
                },
                in_flight: self.in_flight,
                ok,
            };
            self.meter = Some(m.fold(self.meter, &sample));
        }
        self.pick_count = if self.pick_count == u64::MAX {
            0
        } else {
            self.pick_count + 1
        };
    }

    /// A call is no longer outstanding, whether it completed or was dropped.
    pub fn leave(&mut self)
        ensures
            old(self).in_flight == next_count(final(self).in_flight as int, usize::MAX as int),
            old(self).in_flight > 0 ==> final(self).in_flight == old(self).in_flight - 1,
            final(self).pick_count == old(self).pick_count,
            final(self).meter == old(self).meter,
    {
        self.in_flight = if self.in_flight == 0 {
            usize::MAX
        } else {
            self.in_flight - 1
        };
    }
}

/// A weight that is not finite or not positive.
#[derive(Debug, Clone, Copy)]
pub struct WeightError(pub Double);

/// A weight is finite and positive.
pub open spec fn valid_weight(w: Double) -> bool {
    0 < w.bits < crate::double::INFINITY
}

/// A member of a router: an id, a handle on whatever runs its calls, and a weight.
#[derive(Debug)]
pub struct Member<Id, H> {
    id: Id,
    handle: H,
    weight: Double,
}

impl<Id, H> Member<Id, H> {
    #[verifier::type_invariant]
    spec fn weighable(self) -> bool {
        valid_weight(self.weight)
    }

    /// Id, handle and weight.
    pub closed spec fn parts(&self) -> (Id, H, Double) {
        (self.id, self.handle, self.weight)
    }

    /// A member of weight one.
    pub fn new(id: Id, handle: H) -> (m: Self)
        ensures
            m.parts() == (id, handle, Double { bits: ONE }),
    {
        Member { id, handle, weight: Double::from_bits(ONE) }
    }

    /// Set the weight.
    pub fn weight(self, w: Double) -> (m: Self)
        requires
            valid_weight(w),
        ensures
            m.parts() == (self.parts().0, self.parts().1, w),
    {
        Member { weight: w, ..self }
    }

    /// Set the weight, or refuse one that is not finite and positive.
    pub fn try_weight(self, w: Double) -> (r: Result<Self, WeightError>)
        ensures
            match r {
                Ok(m) => valid_weight(w) && m.parts() == (self.parts().0, self.parts().1, w),
                Err(e) => !valid_weight(w) && e == WeightError(w),
            },
    {
        if !w.is_finite() || !w.is_positive() {
            return Err(WeightError(w));
        }
        Ok(self.weight(w))
    }

    pub fn into_parts(self) -> (p: (Id, H, Double))
        ensures
            p == self.parts(),
            valid_weight(p.2),
    {
        proof {
            use_type_invariant(&self);
        }
        (self.id, self.handle, self.weight)
    }
}

/// A call that begins, and leaves after it completed or without, leaves as many calls
/// outstanding as before.
pub proof fn law_calls_leave_no_trace(before: MemberState, during: MemberState, after: MemberState)
    requires
        during.in_flight == next_count(before.in_flight as int, usize::MAX as int),
        during.in_flight == next_count(after.in_flight as int, usize::MAX as int),
    ensures
        after.in_flight == before.in_flight,
{
}

/// A call that begins is one more outstanding, and a completed one is one more pick, as far
/// as they can be counted.
pub proof fn law_calls_are_counted(n: int, max: int)
    requires
        0 <= n <= max,
    ensures
        n < max ==> next_count(n, max) == n + 1,
        n == max ==> next_count(n, max) == 0,
{
}

/// What a meter sees of a call is how long it took, when it completed, how it ended, how many
/// calls were outstanding, and when the member was last metered.
pub proof fn law_samples_measure_the_call(
    state: MemberState,
    started: Instant,
    now: Instant,
    ok: bool,
)
    requires
        started.nanos <= now.nanos,
    ensures
        ({
            let s = state.sample_at(started, now, ok);
            &&& started.nanos + s.latency.nanos == now.nanos
            &&& s.at == now
            &&& s.ok == ok
            &&& s.in_flight == state.in_flight
            &&& match state.meter {
                Some(reading) => s.last_update == reading.last_update,
                None => s.last_update == now,
            }
        }),
{
}

/// A weight is accepted exactly if it is a finite number above zero.
pub proof fn law_weights_are_positive(w: Double)
    ensures
        valid_weight(w) == (w.finite() && w.rank() > 0),
{
}

} // verus!
