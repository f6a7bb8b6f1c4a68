//! Clocks and random numbers: what a policy asks of the system it runs on.

pub mod clock;
pub mod rng;
pub mod seed;

pub use clock::{ManualClock, ManualSleep, TestCore};
pub use rng::SplitMix64;
pub use seed::TokioCore;

use vstd::prelude::*;

use crate::time::Instant;

verus! {

/// A clock and a source of random numbers. A core tells what they may give, or says
/// nothing of it.
pub trait Core: Sized {
    /// The clock may show `t`.
    open spec fn shows(&self, t: Instant) -> bool {
        true
    }

    /// The source may give `n`, and is then as `after` is.
    open spec fn drew(self, after: Self, n: u64) -> bool {
        true
    }

    fn now(&self) -> (t: Instant)
        ensures
            self.shows(t),
    ;

    fn next_u64(&mut self) -> (n: u64)
        ensures
            old(self).drew(*final(self), n),
    ;
}

/// `draws` are the numbers that were asked for, one after the other, to get from `before`
/// to `after`.
pub open spec fn drew_all<C: Core>(before: C, after: C, draws: Seq<u64>) -> bool
    decreases draws.len(),
{
    if draws.len() == 0 {
        before == after
    } else {
        exists|mid: C|
            drew_all(before, mid, draws.drop_last()) && #[trigger] mid.drew(after, draws.last())
    }
}

/// Cores for tests that hold equal generators draw the same numbers, and hold equal
/// generators again afterwards.
pub proof fn law_equal_seeds_draw_alike<W>(
    a: TestCore<W>,
    b: TestCore<W>,
    after_a: TestCore<W>,
    after_b: TestCore<W>,
    draws_a: Seq<u64>,
    draws_b: Seq<u64>,
)
    requires
        a.rng == b.rng,
        draws_a.len() == draws_b.len(),
        drew_all(a, after_a, draws_a),
        drew_all(b, after_b, draws_b),
    ensures
        draws_a == draws_b,
        after_a.rng == after_b.rng,
    decreases draws_a.len(),
{
    if draws_a.len() > 0 {
        let mid_a = choose|mid: TestCore<W>|
            drew_all(a, mid, draws_a.drop_last()) && #[trigger] mid.drew(after_a, draws_a.last());
        let mid_b = choose|mid: TestCore<W>|
            drew_all(b, mid, draws_b.drop_last()) && #[trigger] mid.drew(after_b, draws_b.last());
        law_equal_seeds_draw_alike(
            a,
            b,
            mid_a,
            mid_b,
            draws_a.drop_last(),
            draws_b.drop_last(),
        );
        assert(draws_a =~= draws_a.drop_last().push(draws_a.last()));
        assert(draws_b =~= draws_b.drop_last().push(draws_b.last()));
    }
}

} // verus!
