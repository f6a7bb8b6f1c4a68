//! A watchdog on silence. An attempt timeout ends an operation that takes long; the
//! watchdog ends one that has gone silent. The operation ticks a [`Progress`] on each
//! unit of progress, and as long as it does so within every span of the budget it runs to
//! completion, however long that takes.

use vstd::prelude::*;

use crate::time::{Duration, Instant};

verus! {

/// A count of the contacts that an operation made. Whoever is to tick the same count
/// shares the value.
#[derive(Debug)]
pub struct Progress {
    pub ticks: u64,
}

impl Progress {
    pub fn new() -> (p: Progress)
        ensures
            p.ticks == 0,
    {
        Progress { ticks: 0 }
    }

    /// Record that the operation made progress.
    pub fn tick(&mut self)
        ensures
            final(self).ticks == vstd::wrapping::u64_specs::wrapping_add(old(self).ticks, 1),
            final(self).ticks != old(self).ticks,
    {
        self.ticks = self.ticks.wrapping_add(1);
    }

    pub fn sample(&self) -> (n: u64)
        ensures
            n == self.ticks,
    {
        self.ticks
    }
}

/// A count after `n` more ticks.
pub open spec fn ticked(ticks: u64, n: nat) -> u64
    decreases n,
{
    if n == 0 {
        ticks
    } else {
        vstd::wrapping::u64_specs::wrapping_add(ticked(ticks, (n - 1) as nat), 1)
    }
}

/// So many ticks raise the count by as much, while it can be counted.
pub proof fn law_ticks_are_counted(ticks: u64, n: nat)
    requires
        ticks + n <= u64::MAX,
    ensures
        ticked(ticks, n) == ticks + n,
    decreases n,
{
    if n > 0 {
        law_ticks_are_counted(ticks, (n - 1) as nat);
    }
}

/// How a watched operation fails.
#[derive(Debug, PartialEq, Eq)]
pub enum StallError<E> {
    /// The operation was silent for at least `idle`.
    Stalled { idle: Duration },
    /// The operation itself returned an error.
    Operation(E),
}

/// The state of a watch.
#[derive(Debug, Clone, Copy)]
pub struct Watchdog {
    pub budget: Duration,
    /// The ticks that were last seen.
    pub last_ticks: u64,
    /// When the operation counts as silent, unless it ticks before.
    pub deadline: Instant,
}

impl Watchdog {
    /// The watch after `ticks` were seen at `now`.
    pub open spec fn after(self, ticks: u64, now: Instant) -> Watchdog {
        if ticks != self.last_ticks {
            Watchdog { last_ticks: ticks, deadline: now.spec_after(self.budget), ..self }
        } else {
            self
        }
    }

    /// The operation counts as silent at `now`.
    pub open spec fn silent_at(self, now: Instant) -> bool {
        now.nanos >= self.deadline.nanos
    }

    /// Begin to watch at `now` an operation that has ticked `ticks` times.
    pub fn new(budget: Duration, ticks: u64, now: Instant) -> (w: Watchdog)
        ensures
            w == (Watchdog { budget, last_ticks: ticks, deadline: now.spec_after(budget) }),
    {
        Watchdog { budget, last_ticks: ticks, deadline: now.saturating_add(budget) }
    }

    /// The operation has ticked `ticks` times by `now`. Returns whether that is news, so
    /// that the timer has to be armed anew.
    pub fn observe(&mut self, ticks: u64, now: Instant) -> (rearm: bool)
        ensures
            *final(self) == old(self).after(ticks, now),
            rearm == (ticks != old(self).last_ticks),
    {
        if ticks != self.last_ticks {
            self.last_ticks = ticks;
            self.deadline = now.saturating_add(self.budget);
            true
        } else {
            false
        }
    }

    /// How long the timer has to run, from `now` on.
    pub fn remaining(&self, now: Instant) -> (d: Duration)
        ensures
            d == self.deadline.spec_since(now),
            d.nanos == 0 <==> self.silent_at(now),
    {
        self.deadline.duration_since(now)
    }

    /// Settle the race between the operation and its silence: a result counts even where
    /// the timer has run out as well.
    pub fn settle<T, E>(&self, result: Option<Result<T, E>>, timer_elapsed: bool) -> (r: Option<
        Result<T, StallError<E>>,
    >)
        ensures
            r == (match result {
                Some(Ok(v)) => Some(Ok::<T, StallError<E>>(v)),
                Some(Err(e)) => Some(Err::<T, StallError<E>>(StallError::Operation(e))),
                None => if timer_elapsed {
                    Some(Err::<T, StallError<E>>(StallError::Stalled { idle: self.budget }))
                } else {
                    None
                },
            }),
    {
        match result {
            Some(Ok(v)) => Some(Ok(v)),
            Some(Err(e)) => Some(Err(StallError::Operation(e))),
            None => if timer_elapsed {
                Some(Err(StallError::Stalled { idle: self.budget }))
            } else {
                None
            },
        }
    }

    /// The watch after a history of observations.
    pub open spec fn after_all(self, seen: Seq<(u64, Instant)>) -> Watchdog
        decreases seen.len(),
    {
        if seen.len() == 0 {
            self
        } else {
            self.after_all(seen.drop_last()).after(seen.last().0, seen.last().1)
        }
    }

    /// An operation that keeps ticking within the budget never counts as silent, however
    /// long it takes: where each observation brings news and comes before the budget has
    /// run out since the one before, none of them finds the operation silent.
    pub proof fn law_live_operations_survive(self, seen: Seq<(u64, Instant)>, i: int)
        requires
            0 <= i < seen.len(),
            seen[0].0 != self.last_ticks,
            seen[0].1.nanos < self.deadline.nanos,
            forall|k: int|
                #![trigger seen[k]]
                0 < k < seen.len() ==> seen[k].0 != seen[k - 1].0 && seen[k].1.nanos < seen[k
                    - 1].1.spec_after(self.budget).nanos,
        ensures
            !self.after_all(seen.take(i)).silent_at(seen[i].1),
            self.after_all(seen.take(i + 1)).last_ticks == seen[i].0,
            self.after_all(seen.take(i + 1)).deadline == seen[i].1.spec_after(self.budget),
            self.after_all(seen.take(i + 1)).budget == self.budget,
        decreases i,
    {
        assert(seen.take(i + 1).drop_last() =~= seen.take(i));
        assert(seen.take(i + 1).last() == seen[i]);
        if i > 0 {
            self.law_live_operations_survive(seen, i - 1);
        } else {
            assert(seen.take(0) =~= Seq::empty());
        }
    }

    /// Looking at an operation that has not ticked changes nothing, however often: the watch
    /// still runs out at the time that its last news set.
    pub proof fn law_looking_is_no_news(self, seen: Seq<(u64, Instant)>)
        requires
            forall|k: int| 0 <= k < seen.len() ==> (#[trigger] seen[k]).0 == self.last_ticks,
        ensures
            self.after_all(seen) == self,
        decreases seen.len(),
    {
        if seen.len() > 0 {
            let fewer = seen.drop_last();
            assert forall|k: int| 0 <= k < fewer.len() implies (#[trigger] fewer[k]).0
                == self.last_ticks by {
                assert(seen[k].0 == self.last_ticks);
            }
            self.law_looking_is_no_news(fewer);
            assert(seen[seen.len() - 1].0 == self.last_ticks);
        }
    }

    /// An operation that has gone silent is stalled once the budget has run out since its
    /// last news, and not before, however often it was looked at in between.
    pub proof fn law_silence_is_a_stall(
        self,
        ticks: u64,
        news: Instant,
        looks: Seq<(u64, Instant)>,
        now: Instant,
    )
        requires
            ticks != self.last_ticks,
            news.nanos + self.budget.nanos <= u128::MAX,
            forall|k: int| 0 <= k < looks.len() ==> (#[trigger] looks[k]).0 == ticks,
        ensures
            ({
                let watch = self.after(ticks, news).after_all(looks);
                &&& watch.silent_at(now) == (now.nanos >= news.nanos + self.budget.nanos)
                &&& watch.budget == self.budget
            }),
    {
        self.after(ticks, news).law_looking_is_no_news(looks);
    }

    /// A new watch runs out a budget after it began; its timer runs exactly until then.
    pub proof fn law_watches_run_for_their_budget(
        budget: Duration,
        ticks: u64,
        began: Instant,
        now: Instant,
        w: Watchdog,
        left: Duration,
    )
        requires
            call_ensures(Watchdog::new, (budget, ticks, began), w),
            call_ensures(Watchdog::remaining, (&w, now), left),
            began.nanos + budget.nanos <= u128::MAX,
        ensures
            w.budget == budget,
            w.last_ticks == ticks,
            w.silent_at(now) == (began.nanos + budget.nanos <= now.nanos),
            now.nanos <= began.nanos + budget.nanos ==> now.nanos + left.nanos == began.nanos
                + budget.nanos,
            now.nanos >= began.nanos + budget.nanos ==> left.nanos == 0,
    {
    }

    /// The result of an operation always counts, as it is; silence counts only without one,
    /// and tells how long it was.
    pub proof fn law_results_come_before_silence<T, E>(
        self,
        result: Option<Result<T, E>>,
        timer_elapsed: bool,
        r: Option<Result<T, StallError<E>>>,
    )
        requires
            call_ensures(Watchdog::settle::<T, E>, (&self, result, timer_elapsed), r),
        ensures
            result matches Some(Ok(v)) ==> r == Some(Ok::<T, StallError<E>>(v)),
            result matches Some(Err(e)) ==> r == Some(
                Err::<T, StallError<E>>(StallError::Operation(e)),
            ),
            result is None && timer_elapsed ==> r == Some(
                Err::<T, StallError<E>>(StallError::Stalled { idle: self.budget }),
            ),
            result is None && !timer_elapsed ==> r is None,
    {
    }

    /// An operation counts as silent only once the budget has run out since its last news.
    pub proof fn law_stalls_follow_silence(self, ticks: u64, news: Instant, now: Instant)
        requires
            ticks != self.last_ticks,
            news.nanos + self.budget.nanos <= u128::MAX,
        ensures
            self.after(ticks, news).silent_at(now) == (now.nanos >= news.nanos
                + self.budget.nanos),
    {
    }
}

} // verus!
