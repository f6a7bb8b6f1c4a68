//! A small pseudo-random generator for jitter. It is not cryptographic.

use vstd::prelude::*;
use vstd::wrapping::*;

verus! {

/// What is added to the state for each number.
pub const GAMMA: u64 = 0x9E37_79B9_7F4A_7C15;

/// The state after one more number.
pub open spec fn stepped(state: u64) -> u64 {
    u64_specs::wrapping_add(state, GAMMA)
}

/// The number that state `s` stands for.
pub open spec fn mixed(s: u64) -> u64 {
    let a = u64_specs::wrapping_mul(s ^ (s >> 30), 0xBF58_476D_1CE4_E5B9);
    let b = u64_specs::wrapping_mul(a ^ (a >> 27), 0x94D0_49BB_1331_11EB);
    b ^ (b >> 31)
}

/// The SplitMix64 generator.
#[derive(Debug, Clone, Copy)]
pub struct SplitMix64 {
    pub state: u64,
}

impl SplitMix64 {
    pub fn new(seed: u64) -> (r: SplitMix64)
        ensures
            r.state == seed,
    {
        SplitMix64 { state: seed }
    }

    pub fn next_u64(&mut self) -> (n: u64)
        ensures
            final(self).state == stepped(old(self).state),
            n == mixed(final(self).state),
    {
        self.state = self.state.wrapping_add(GAMMA);
        let s: u64 = self.state;
        let a: u64 = (s ^ (s >> 30)).wrapping_mul(0xBF58_476D_1CE4_E5B9);
        let b: u64 = (a ^ (a >> 27)).wrapping_mul(0x94D0_49BB_1331_11EB);
        b ^ (b >> 31)
    }
}

} // verus!
