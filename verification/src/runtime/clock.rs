//! A clock that is advanced by hand, and a core built on it, for tests.

use std::collections::VecDeque;

use vstd::prelude::*;

use crate::runtime::rng::SplitMix64;
use crate::runtime::Core;
use crate::time::{Duration, Instant};

verus! {

/// A clock that stands still until it is advanced. Whoever waits on it leaves a `W` to be
/// woken by.
#[verifier::reject_recursive_types(W)]
#[derive(Debug)]
pub struct ManualClock<W> {
    base: Instant,
    offset: Duration,
    wakers: VecDeque<(Duration, W)>,
}

/// The state of a [`ManualClock`].
#[verifier::ext_equal]
pub ghost struct ClockModel<W> {
    pub base: Instant,
    /// How far the clock was advanced.
    pub offset: Duration,
    /// Who waits, and until which offset.
    pub wakers: Seq<(Duration, W)>,
}

/// Two spans together, or the longest there is.
pub open spec fn spec_extended(a: Duration, b: Duration) -> Duration {
    Duration {
        nanos: if a.nanos + b.nanos <= u128::MAX {
            (a.nanos + b.nanos) as u128
        } else {
            u128::MAX
        },
    }
}

/// A wait that is over at offset `now`.
pub open spec fn crossed<W>(now: Duration) -> spec_fn((Duration, W)) -> bool {
    |e: (Duration, W)| e.0.nanos <= now.nanos
}

/// A wait that is not over at offset `now`.
pub open spec fn ahead<W>(now: Duration) -> spec_fn((Duration, W)) -> bool {
    |e: (Duration, W)| e.0.nanos > now.nanos
}

impl<W> ClockModel<W> {
    pub open spec fn now(self) -> Instant {
        self.base.spec_after(self.offset)
    }

    /// The clock after it was advanced.
    pub open spec fn advanced(self, dur: Duration) -> ClockModel<W> {
        let offset = spec_extended(self.offset, dur);
        ClockModel { base: self.base, offset, wakers: self.wakers.filter(ahead(offset)) }
    }

    /// Who is woken as the clock is advanced, in the order in which they came.
    pub open spec fn woken_by(self, dur: Duration) -> Seq<W> {
        self.wakers.filter(crossed(spec_extended(self.offset, dur))).map_values(
            |e: (Duration, W)| e.1,
        )
    }

    /// Advancing the clock wakes everyone whose time has come and nobody else, and whoever
    /// is left waits for later.
    pub proof fn law_wakes_exactly_the_crossed(self, dur: Duration)
        ensures
            self.advanced(dur).wakers.len() + self.woken_by(dur).len() == self.wakers.len(),
            forall|i: int|
                0 <= i < self.advanced(dur).wakers.len() ==> (
                #[trigger] self.advanced(dur).wakers[i]).0.nanos > self.advanced(dur).offset.nanos,
            forall|i: int|
                0 <= i < self.wakers.len() && (#[trigger] self.wakers[i]).0.nanos
                    <= self.advanced(dur).offset.nanos ==> self.woken_by(dur).contains(
                    self.wakers[i].1,
                ),
    {
        let now = spec_extended(self.offset, dur);
        lemma_partition(self.wakers, now);
        let over = self.wakers.filter(crossed(now));
        let left = self.wakers.filter(ahead(now));
        assert(forall|i: int| 0 <= i < left.len() ==> ahead(now)(#[trigger] left[i]));
        assert forall|i: int|
            0 <= i < self.wakers.len() && (#[trigger] self.wakers[i]).0.nanos
                <= now.nanos implies self.woken_by(dur).contains(self.wakers[i].1) by {
            assert(crossed::<W>(now)(self.wakers[i]));
            assert(over.contains(self.wakers[i]));
            let k = choose|k: int| 0 <= k < over.len() && over[k] == self.wakers[i];
            assert(self.woken_by(dur)[k] == self.wakers[i].1);
        }
    }

    /// Advancing the clock moves what it shows by exactly as much.
    pub proof fn law_advances_move_the_clock(self, dur: Duration)
        requires
            self.base.nanos + self.offset.nanos + dur.nanos <= u128::MAX,
        ensures
            self.advanced(dur).now().nanos == self.now().nanos + dur.nanos,
            self.advanced(dur).base == self.base,
            self.advanced(dur).offset.nanos == self.offset.nanos + dur.nanos,
            self.now().nanos == self.base.nanos + self.offset.nanos,
    {
    }

    /// A clock that is advanced further than it can count stops at the end, and then wakes
    /// everyone.
    pub proof fn law_clocks_stop_at_the_end(self, dur: Duration)
        requires
            self.offset.nanos + dur.nanos >= u128::MAX,
        ensures
            self.advanced(dur).offset.nanos == u128::MAX,
            self.advanced(dur).base == self.base,
            self.advanced(dur).wakers.len() == 0,
            self.woken_by(dur).len() == self.wakers.len(),
    {
        self.law_wakes_exactly_the_crossed(dur);
        let left = self.advanced(dur).wakers;
        if left.len() > 0 {
            assert(left[0].0.nanos > u128::MAX);
        }
    }

    /// Two advances leave the clock where one of their sum does, and together they wake
    /// whoever that one wakes: those of the first advance first.
    pub proof fn law_advances_add_up(self, first: Duration, second: Duration)
        requires
            first.nanos + second.nanos <= u128::MAX,
        ensures
            ({
                let sum = Duration { nanos: (first.nanos + second.nanos) as u128 };
                let halfway = self.advanced(first);
                &&& halfway.advanced(second) == self.advanced(sum)
                &&& (self.woken_by(first) + halfway.woken_by(second)).to_multiset()
                    == self.woken_by(sum).to_multiset()
            }),
    {
        let sum = Duration { nanos: (first.nanos + second.nanos) as u128 };
        let mid = spec_extended(self.offset, first);
        let end = spec_extended(mid, second);
        assert(end == spec_extended(self.offset, sum));
        lemma_sift_twice(self.wakers, mid, end);
    }
}

/// The wakers of `s`.
spec fn wakers_of<W>(s: Seq<(Duration, W)>) -> Seq<W> {
    s.map_values(|e: (Duration, W)| e.1)
}

proof fn lemma_sift_twice<W>(s: Seq<(Duration, W)>, mid: Duration, end: Duration)
    requires
        mid.nanos <= end.nanos,
    ensures
        s.filter(ahead(mid)).filter(ahead(end)) == s.filter(ahead(end)),
        (wakers_of(s.filter(crossed(mid))) + wakers_of(
            s.filter(ahead(mid)).filter(crossed(end)),
        )).to_multiset() == wakers_of(s.filter(crossed(end))).to_multiset(),
    decreases s.len(),
{
    reveal(Seq::filter);
    if s.len() > 0 {
        let rest = s.drop_last();
        let e = s.last();
        lemma_sift_twice(rest, mid, end);
        let early = wakers_of(rest.filter(crossed(mid)));
        let late = wakers_of(rest.filter(ahead(mid)).filter(crossed(end)));
        let all = wakers_of(rest.filter(crossed(end)));
        broadcast use vstd::seq_lib::group_to_multiset_ensures;
        if e.0.nanos <= mid.nanos {
            assert(wakers_of(s.filter(crossed(mid))) =~= early.push(e.1));
            assert(wakers_of(s.filter(crossed(end))) =~= all.push(e.1));
            vstd::seq_lib::lemma_multiset_commutative(early.push(e.1), late);
            vstd::seq_lib::lemma_multiset_commutative(early, late);
            assert((early.push(e.1) + late).to_multiset() =~= all.push(e.1).to_multiset());
        } else {
            let sifted = rest.filter(ahead(mid));
            assert(s.filter(ahead(mid)) =~= sifted.push(e));
            assert(sifted.push(e).drop_last() =~= sifted);
            if e.0.nanos <= end.nanos {
                assert(wakers_of(s.filter(ahead(mid)).filter(crossed(end))) =~= late.push(e.1));
                assert(wakers_of(s.filter(crossed(end))) =~= all.push(e.1));
                assert(early + late.push(e.1) =~= (early + late).push(e.1));
                assert((early + late).push(e.1).to_multiset() =~= all.push(e.1).to_multiset());
            }
        }
    } else {
        assert(s.filter(ahead(mid)) =~= s);
        assert(wakers_of(s) + wakers_of(s) =~= wakers_of(s));
    }
}

proof fn lemma_partition<W>(s: Seq<(Duration, W)>, now: Duration)
    ensures
        s.filter(ahead(now)).len() + s.filter(crossed(now)).len() == s.len(),
    decreases s.len(),
{
    reveal(Seq::filter);
    if s.len() > 0 {
        lemma_partition(s.drop_last(), now);
    }
}

impl<W> View for ManualClock<W> {
    type V = ClockModel<W>;

    closed spec fn view(&self) -> ClockModel<W> {
        ClockModel { base: self.base, offset: self.offset, wakers: self.wakers@ }
    }
}

impl<W> ManualClock<W> {
    /// A clock that stands at the origin.
    pub fn new() -> (c: Self)
        ensures
            c@ == (ClockModel::<W> {
                base: Instant { nanos: 0 },
                offset: Duration { nanos: 0 },
                wakers: Seq::empty(),
            }),
    {
        Self::starting_at(Instant::from_nanos(0))
    }

    /// A clock that stands at `base`.
    pub fn starting_at(base: Instant) -> (c: Self)
        ensures
            c@ == (ClockModel::<W> { base, offset: Duration { nanos: 0 }, wakers: Seq::empty() }),
    {
        ManualClock { base, offset: Duration::zero(), wakers: VecDeque::new() }
    }

    /// Advance the clock. Returns who is to be woken.
    pub fn advance(&mut self, dur: Duration) -> (ready: Vec<W>)
        ensures
            final(self)@ == old(self)@.advanced(dur),
            ready@ == old(self)@.woken_by(dur),
    {
        self.offset = Duration { nanos: self.offset.nanos.saturating_add(dur.nanos) };
        let now = self.offset;
        let ghost all = self.wakers@;
        let n: usize = self.wakers.len();
        let mut ready: Vec<W> = Vec::new();
        let mut left: VecDeque<(Duration, W)> = VecDeque::new();
        let mut i: usize = 0;
        proof {
            reveal(Seq::filter);
            assert(all.take(0) =~= Seq::empty());
            assert(all.subrange(0, n as int) =~= all);
        }
        while i < n
            invariant
                i <= n,
                n == all.len(),
                self.base == old(self).base,
                self.offset == now,
                self.wakers@ == all.subrange(i as int, n as int),
                left@ == all.take(i as int).filter(ahead(now)),
                ready@ == all.take(i as int).filter(crossed(now)).map_values(
                    |e: (Duration, W)| e.1,
                ),
            decreases n - i,
        {
            proof {
                reveal(Seq::filter);
                assert(all.take(i + 1).drop_last() =~= all.take(i as int));
                assert(all.take(i + 1).last() == all[i as int]);
            }
            match self.wakers.pop_front() {
                Some(entry) => {
                    assert(entry == all[i as int]);
                    assert(self.wakers@ =~= all.subrange(i + 1, n as int));
                    if entry.0.nanos <= now.nanos {
                        ready.push(entry.1);
                        assert(ready@ =~= all.take(i + 1).filter(crossed(now)).map_values(
                            |e: (Duration, W)| e.1,
                        ));
                    } else {
                        left.push_back(entry);
                    }
                },
                None => {},
            }
            i = i + 1;
        }
        assert(all.take(n as int) =~= all);
        self.wakers = left;
        ready
    }

    /// What the clock shows.
    pub fn now(&self) -> (t: Instant)
        ensures
            t == self@.now(),
    {
        self.base.saturating_add(self.offset)
    }

    /// How far the clock was advanced.
    pub fn offset(&self) -> (d: Duration)
        ensures
            d == self@.offset,
    {
        self.offset
    }

    /// A wait for `dur` from now on.
    pub fn sleep(&self, dur: Duration) -> (s: ManualSleep)
        ensures
            s.deadline == spec_extended(self@.offset, dur),
    {
        ManualSleep { deadline: Duration { nanos: self.offset.nanos.saturating_add(dur.nanos) } }
    }

    /// Have `waker` woken when the clock reaches offset `deadline`.
    pub fn register(&mut self, deadline: Duration, waker: W)
        ensures
            final(self)@ == (ClockModel {
                wakers: old(self)@.wakers.push((deadline, waker)),
                ..old(self)@
            }),
    {
        self.wakers.push_back((deadline, waker));
    }
}

/// A wait on a [`ManualClock`], until it has been advanced to `deadline`.
#[derive(Debug, Clone, Copy)]
pub struct ManualSleep {
    pub deadline: Duration,
}

impl ManualSleep {
    /// Whether the wait is over; if it is not, `waker` is woken when it is.
    pub fn poll<W>(&self, clock: &mut ManualClock<W>, waker: W) -> (ready: bool)
        ensures
            ready == (old(clock)@.offset.nanos >= self.deadline.nanos),
            final(clock)@ == (if ready {
                old(clock)@
            } else {
                ClockModel {
                    wakers: old(clock)@.wakers.push((self.deadline, waker)),
                    ..old(clock)@
                }
            }),
    {
        if clock.offset().nanos >= self.deadline.nanos {
            true
        } else {
            clock.register(self.deadline, waker);
            false
        }
    }
}

/// A core for tests: a clock that is advanced by hand and a seeded generator.
#[verifier::reject_recursive_types(W)]
#[derive(Debug)]
pub struct TestCore<W> {
    pub clock: ManualClock<W>,
    pub rng: SplitMix64,
}

impl<W> TestCore<W> {
    pub fn new(clock: ManualClock<W>) -> (c: Self)
        ensures
            c.clock == clock,
            c.rng.state == 0xDEAD_BEEF,
    {
        Self::with_seed(clock, 0xDEAD_BEEF)
    }

    pub fn with_seed(clock: ManualClock<W>, seed: u64) -> (c: Self)
        ensures
            c.clock == clock,
            c.rng.state == seed,
    {
        TestCore { clock, rng: SplitMix64::new(seed) }
    }

    /// A wait for `dur` from now on.
    pub fn sleep(&self, dur: Duration) -> (s: ManualSleep)
        ensures
            s.deadline == spec_extended(self.clock@.offset, dur),
    {
        self.clock.sleep(dur)
    }
}

impl<W> Core for TestCore<W> {
    open spec fn shows(&self, t: Instant) -> bool {
        t == self.clock@.now()
    }

    open spec fn drew(self, after: Self, n: u64) -> bool {
        &&& after.clock == self.clock
        &&& after.rng.state == crate::runtime::rng::stepped(self.rng.state)
        &&& n == crate::runtime::rng::mixed(after.rng.state)
    }

    fn now(&self) -> (t: Instant) {
        self.clock.now()
    }

    fn next_u64(&mut self) -> (n: u64) {
        self.rng.next_u64()
    }
}

/// A wait is over exactly when the clock has been advanced by what was asked for, in one
/// step or in several.
pub proof fn law_sleep_ends_on_time<W>(
    clock: ClockModel<W>,
    dur: Duration,
    first: Duration,
    second: Duration,
)
    requires
        clock.offset.nanos + first.nanos + second.nanos <= u128::MAX,
        clock.offset.nanos + dur.nanos <= u128::MAX,
    ensures
        (clock.advanced(first).advanced(second).offset.nanos >= spec_extended(
            clock.offset,
            dur,
        ).nanos) == (first.nanos + second.nanos >= dur.nanos),
{
}

} // verus!
