//! The generator of the production core.

use vstd::prelude::*;

use crate::runtime::rng::{SplitMix64, GAMMA};

verus! {

/// Whitens the seed.
pub const WHITENER: u64 = 0x2545_F491_4F6C_DD1D;

/// Random numbers for the production core: each number steps a shared state and is mixed
/// from what the state was.
#[derive(Debug)]
pub struct TokioCore {
    pub rng_state: u64,
}

impl TokioCore {
    /// A generator that is seeded with a reading of the clock, in nanoseconds.
    pub fn new(nanos: u64) -> (c: TokioCore)
        ensures
            c.rng_state == (if nanos ^ WHITENER == 0 {
                1u64
            } else {
                nanos ^ WHITENER
            }),
            c.rng_state >= 1,
    {
        let seed: u64 = nanos ^ WHITENER;
        TokioCore {
            rng_state: if seed == 0 {
                1
            } else {
                seed
            },
        }
    }

    /// The next number.
    pub fn next_u64(&mut self) -> (n: u64)
        ensures
            final(self).rng_state == crate::runtime::rng::stepped(old(self).rng_state),
            n == crate::runtime::rng::mixed(final(self).rng_state),
    {
        let s: u64 = self.rng_state;
        self.rng_state = s.wrapping_add(GAMMA);
        SplitMix64::new(s).next_u64()
    }
}

} // verus!
