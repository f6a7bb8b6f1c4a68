//! Delay schedules.

use vstd::arithmetic::power2::*;
use vstd::prelude::*;

use crate::time::Duration;

verus! {

/// Delay schedule between attempts.
#[derive(Debug, Clone, Copy, PartialEq, Eq, Structural)]
pub enum Backoff {
    /// Constant delay.
    Fixed(Duration),
    /// `base * 2^(attempt-1)`, clamped to `max`.
    Exponential { base: Duration, max: Duration },
}

/// `base * 2^doublings`, clamped to `max`.
pub open spec fn doubled(base: nat, doublings: nat, max: nat) -> nat {
    if base * pow2(doublings) <= max {
        base * pow2(doublings)
    } else {
        max
    }
}

proof fn lemma_doubled_step(base: nat, doublings: nat, max: nat)
    ensures
        doubled(base, doublings + 1, max) == if 2 * doubled(base, doublings, max) <= max {
            2 * doubled(base, doublings, max)
        } else {
            max
        },
{
    lemma_pow2_unfold(doublings + 1);
    lemma_pow2_pos(doublings);
    let p = pow2(doublings);
    assert(base * (2 * p) == 2 * (base * p)) by (nonlinear_arith);
    assert(base * p >= 0) by (nonlinear_arith);
}

proof fn lemma_doubled_settled(base: nat, from: nat, to: nat, max: nat)
    requires
        from <= to,
        doubled(base, from, max) == max || base == 0,
    ensures
        doubled(base, to, max) == doubled(base, from, max),
    decreases to - from,
{
    if from < to {
        lemma_doubled_step(base, from, max);
        if base == 0 {
            assert(base * pow2(from) == 0) by (nonlinear_arith)
                requires
                    base == 0,
            ;
        }
        lemma_doubled_settled(base, from + 1, to, max);
    }
}

impl Backoff {
    pub fn fixed(d: Duration) -> (b: Backoff)
        ensures
            b == Backoff::Fixed(d),
    {
        Backoff::Fixed(d)
    }

    pub fn exponential(base: Duration, max: Duration) -> (b: Backoff)
        ensures
            b == (Backoff::Exponential { base, max }),
    {
        Backoff::Exponential { base, max }
    }

    /// Nanoseconds to wait after `attempt`, before jitter.
    pub open spec fn schedule(&self, attempt: u32) -> nat {
        match self {
            Backoff::Fixed(d) => d.nanos as nat,
            Backoff::Exponential { base, max } => doubled(
                base.nanos as nat,
                if attempt == 0 {
                    0
                } else {
                    (attempt - 1) as nat
                },
                max.nanos as nat,
            ),
        }
    }

    /// Delay to wait after `attempt`, counted from one, before the next one. Jitter
    /// is applied to it later.
    pub fn raw_delay(&self, attempt: u32) -> (d: Duration)
        ensures
            d.nanos == self.schedule(attempt),
    {
        match self {
            Backoff::Fixed(d) => *d,
            Backoff::Exponential { base, max } => {
                let doublings: u32 = attempt.saturating_sub(1);
                let cap: u128 = max.nanos;
                let mut nanos: u128 = if base.nanos <= cap {
                    base.nanos
                } else {
                    cap
                };
                let mut i: u32 = 0;
                proof {
                    lemma2_to64();
                }
                while i < doublings && 0 < nanos && nanos < cap
                    invariant
                        i <= doublings,
                        cap == max.nanos,
                        nanos == doubled(base.nanos as nat, i as nat, cap as nat),
                    decreases doublings - i,
                {
                    proof {
                        lemma_doubled_step(base.nanos as nat, i as nat, cap as nat);
                    }
                    nanos = if nanos <= cap / 2 {
                        2 * nanos
                    } else {
                        cap
                    };
                    i = i + 1;
                }
                proof {
                    if nanos == 0 && base.nanos != 0 && cap != 0 {
                        lemma_pow2_pos(i as nat);
                        assert(base.nanos * pow2(i as nat) > 0) by (nonlinear_arith)
                            requires
                                base.nanos > 0,
                                pow2(i as nat) > 0,
                        ;
                    }
                    if i < doublings {
                        lemma_doubled_settled(
                            base.nanos as nat,
                            i as nat,
                            doublings as nat,
                            cap as nat,
                        );
                    }
                }
                Duration { nanos }
            },
        }
    }

    /// The exponential schedule starts at the base, doubles until it meets the cap,
    /// and then stays there.
    pub proof fn law_doubles_then_clamps(base: Duration, max: Duration, attempt: u32)
        requires
            1 <= attempt < u32::MAX,
        ensures
            ({
                let b = Backoff::Exponential { base, max };
                let next = (attempt + 1) as u32;
                &&& b.schedule(1) == if base.nanos <= max.nanos {
                    base.nanos
                } else {
                    max.nanos
                }
                &&& b.schedule(attempt) <= max.nanos
                &&& b.schedule(next) == if 2 * b.schedule(attempt) <= max.nanos {
                    2 * b.schedule(attempt)
                } else {
                    max.nanos as nat
                }
            }),
    {
        lemma2_to64();
        assert(doubled(base.nanos as nat, 0, max.nanos as nat) == if base.nanos <= max.nanos {
            base.nanos as nat
        } else {
            max.nanos as nat
        });
        lemma_doubled_step(base.nanos as nat, (attempt - 1) as nat, max.nanos as nat);
    }

    /// A fixed schedule waits its delay after every attempt, and an attempt that was not
    /// counted waits as the first one does.
    pub proof fn law_fixed_delays_are_fixed(self, attempt: u32)
        ensures
            self matches Backoff::Fixed(d) ==> self.schedule(attempt) == d.nanos,
            self.schedule(0) == self.schedule(1),
    {
    }

    /// A later attempt is never followed by a shorter delay than an earlier one.
    pub proof fn law_delays_grow(self, earlier: u32, later: u32)
        requires
            earlier <= later,
        ensures
            self.schedule(earlier) <= self.schedule(later),
        decreases later - earlier,
    {
        if earlier < later {
            let next = (earlier + 1) as u32;
            if let Backoff::Exponential { base, max } = self {
                if earlier > 0 {
                    lemma_doubled_step(
                        base.nanos as nat,
                        (earlier - 1) as nat,
                        max.nanos as nat,
                    );
                }
            }
            Self::law_delays_grow(self, next, later);
        }
    }
}

} // verus!
