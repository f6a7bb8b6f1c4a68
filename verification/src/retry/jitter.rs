//! Randomization of delays.

use vstd::prelude::*;

use crate::time::Duration;

verus! {

/// Randomization of a backoff delay, so that retriers do not act in step.
#[derive(Debug, Clone, Copy, PartialEq, Eq, Structural)]
pub enum Jitter {
    /// The delay as it is.
    Off,
    /// Uniform in `[0, base]`.
    Full,
    /// `base/2 + uniform(0, base/2)`.
    Equal,
}

/// The fraction of `span` that the upper 53 bits of `draw` stand for, cut off below.
pub open spec fn fraction(span: nat, draw: u64) -> nat {
    (draw as nat / 0x800) * span / 0x20_0000_0000_0000
}

/// A fraction is less than its span.
proof fn lemma_fraction(span: nat, draw: u64)
    ensures
        fraction(span, draw) <= span,
        span > 0 ==> fraction(span, draw) < span,
{
    let part = draw as nat / 0x800;
    assert(part * span / 0x20_0000_0000_0000 <= span) by (nonlinear_arith)
        requires
            part < 0x20_0000_0000_0000,
    ;
    if span > 0 {
        assert(part * span / 0x20_0000_0000_0000 < span) by (nonlinear_arith)
            requires
                part < 0x20_0000_0000_0000,
                span > 0,
        ;
    }
}

proof fn lemma_cut_off(n: nat)
    ensures
        n / 0x20_0000_0000_0000 * 0x20_0000_0000_0000 <= n < (n / 0x20_0000_0000_0000 + 1)
            * 0x20_0000_0000_0000,
{
}

proof fn lemma_fraction_grows(span: nat, smaller: u64, larger: u64)
    requires
        smaller <= larger,
    ensures
        fraction(span, smaller) <= fraction(span, larger),
{
    let a = smaller as nat / 0x800;
    let b = larger as nat / 0x800;
    assert(a * span <= b * span) by (nonlinear_arith)
        requires
            a <= b,
    ;
}

fn scale(span: u128, draw: u64) -> (f: u128)
    ensures
        f == fraction(span as nat, draw),
        f <= span,
{
    let unit: u128 = 0x20_0000_0000_0000;
    let part: u128 = (draw / 0x800) as u128;
    let whole: u128 = span / unit;
    let rest: u128 = span % unit;
    proof {
        lemma_fraction(span as nat, draw);
        assert(part * whole <= u128::MAX && part * rest <= u128::MAX) by (nonlinear_arith)
            requires
                part < 0x20_0000_0000_0000,
                rest < 0x20_0000_0000_0000,
                whole <= u128::MAX / 0x20_0000_0000_0000,
        ;
        assert(part * span == (part * whole) * unit + part * rest) by (nonlinear_arith)
            requires
                span == whole * unit + rest,
        ;
        let high = part * whole;
        let low = part * rest;
        assert((high * unit + low) / 0x20_0000_0000_0000 == high + low / 0x20_0000_0000_0000)
            by (nonlinear_arith)
            requires
                unit == 0x20_0000_0000_0000,
        ;
    }
    part * whole + part * rest / unit
}

impl Jitter {
    /// Nanoseconds that are left of `base` nanoseconds after jitter.
    pub open spec fn applied(&self, base: nat, draw: u64) -> nat {
        match self {
            Jitter::Off => base,
            Jitter::Full => fraction(base, draw),
            Jitter::Equal => base / 2 + fraction(base / 2, draw),
        }
    }

    /// Apply jitter to `base`, using one random number.
    pub fn apply(&self, base: Duration, draw: u64) -> (d: Duration)
        ensures
            d.nanos == self.applied(base.nanos as nat, draw),
    {
        match self {
            Jitter::Off => base,
            Jitter::Full => Duration { nanos: scale(base.nanos, draw) },
            Jitter::Equal => {
                let half: u128 = base.nanos / 2;
                Duration { nanos: half + scale(half, draw) }
            },
        }
    }

    /// Jitter spreads a delay over its whole range: full jitter takes the share of the delay
    /// that the draw is of the range of draws, and equal jitter that share of the half that
    /// it does not keep, both cut off to whole nanoseconds. Without jitter it stays whole.
    pub proof fn law_draws_spread_the_delay(self, base: nat, draw: u64)
        ensures
            ({
                let unit: nat = 0x20_0000_0000_0000;
                let part = draw as nat / 0x800;
                let left = self.applied(base, draw);
                &&& self == Jitter::Off ==> left == base
                &&& self == Jitter::Full ==> left * unit <= part * base < (left + 1) * unit
                &&& self == Jitter::Equal ==> (left - base / 2) * unit <= part * (base / 2) < (left
                    - base / 2 + 1) * unit
            }),
    {
        let part = draw as nat / 0x800;
        lemma_cut_off(part * base);
        lemma_cut_off(part * (base / 2));
    }

    /// A larger draw never gives a shorter delay, the least gives the least delay there is,
    /// and the largest comes within a nanosecond and the last bit of the draw of the whole.
    pub proof fn law_larger_draws_wait_longer(self, base: nat, smaller: u64, larger: u64)
        requires
            smaller <= larger,
        ensures
            self.applied(base, smaller) <= self.applied(base, larger),
            self == Jitter::Full ==> self.applied(base, 0) == 0,
            self == Jitter::Equal ==> self.applied(base, 0) == base / 2,
            self == Jitter::Full && base <= 0x20_0000_0000_0000 ==> self.applied(base, u64::MAX) + 1
                >= base,
    {
        lemma_fraction_grows(base, smaller, larger);
        lemma_fraction_grows(base / 2, smaller, larger);
        assert(0 * base == 0) by (nonlinear_arith);
        assert(0 * (base / 2) == 0) by (nonlinear_arith);
        if base <= 0x20_0000_0000_0000 {
            let part = u64::MAX as nat / 0x800;
            assert(part == 0x1F_FFFF_FFFF_FFFF);
            assert(part * base / 0x20_0000_0000_0000 + 1 >= base) by (nonlinear_arith)
                requires
                    part == 0x1F_FFFF_FFFF_FFFF,
                    0 <= base <= 0x20_0000_0000_0000,
            ;
        }
    }

    /// Jitter never lengthens a delay; equal jitter keeps at least half of it, no
    /// jitter all of it, and no delay stays none.
    pub proof fn law_bounds(self, base: nat, draw: u64)
        ensures
            self.applied(base, draw) <= base,
            self == Jitter::Equal ==> base / 2 <= self.applied(base, draw),
            self == Jitter::Off ==> self.applied(base, draw) == base,
            self.applied(0, draw) == 0,
    {
        lemma_fraction(base, draw);
        lemma_fraction(base / 2, draw);
        lemma_fraction(0, draw);
    }
}

} // verus!
