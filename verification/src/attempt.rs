//! What an operation is told about the attempt it runs in.

use vstd::prelude::*;

use crate::time::{Duration, Instant};

verus! {

/// Metadata of the current attempt. `number()` counts from one.
#[derive(Debug, Clone, Copy)]
pub struct Attempt {
    number: u32,
    start: Instant,
    now: Instant,
}

impl Attempt {
    /// The attempt's number, when the first attempt of its call began and when it began
    /// itself.
    pub closed spec fn parts(&self) -> (u32, Instant, Instant) {
        (self.number, self.start, self.now)
    }

    pub fn new(number: u32, start: Instant, now: Instant) -> (a: Attempt)
        ensures
            a.parts() == (number, start, now),
    {
        Attempt { number, start, now }
    }

    /// The attempt's number; the first attempt of a call is 1.
    pub fn number(&self) -> (n: u32)
        ensures
            n == self.parts().0,
    {
        self.number
    }

    /// Time from the start of the first attempt to the start of this one.
    pub fn elapsed(&self) -> (d: Duration)
        ensures
            d == self.parts().2.spec_since(self.parts().1),
    {
        self.now.duration_since(self.start)
    }
}

} // verus!
