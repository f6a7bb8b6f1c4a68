//! A sliding window of failure and total counts, kept in buckets of time.

use vstd::prelude::*;

use crate::time::{Duration, Instant};

verus! {

/// The outcomes that were recorded from `start` on, until the next bucket.
#[derive(Clone, Copy, Debug, PartialEq, Eq, Structural)]
pub struct Tally {
    pub start: Instant,
    pub failures: u64,
    pub total: u64,
}

/// A count that stops at the largest machine integer.
pub open spec fn counted(n: nat) -> u64 {
    if n <= u64::MAX {
        n as u64
    } else {
        u64::MAX
    }
}

/// The failures of all buckets.
pub open spec fn failures_in(buckets: Seq<Tally>) -> nat
    decreases buckets.len(),
{
    if buckets.len() == 0 {
        0
    } else {
        failures_in(buckets.drop_last()) + buckets.last().failures as nat
    }
}

/// The outcomes of all buckets.
pub open spec fn total_in(buckets: Seq<Tally>) -> nat
    decreases buckets.len(),
{
    if buckets.len() == 0 {
        0
    } else {
        total_in(buckets.drop_last()) + buckets.last().total as nat
    }
}

/// The bucket lies within `span` before `now`.
pub open spec fn recent(now: Instant, span: Duration) -> spec_fn(Tally) -> bool {
    |b: Tally| b.start.nanos + span.nanos >= now.nanos
}

/// The buckets that are left at `now`.
pub open spec fn kept(buckets: Seq<Tally>, now: Instant, span: Duration) -> Seq<Tally> {
    buckets.filter(recent(now, span))
}

/// The buckets with one more outcome, recorded at `now`: it counts in the last bucket
/// if that began less than `width` ago, and in a new one otherwise.
pub open spec fn with_outcome(
    buckets: Seq<Tally>,
    now: Instant,
    width: Duration,
    failure: bool,
) -> Seq<Tally> {
    let fault: nat = if failure {
        1
    } else {
        0
    };
    if buckets.len() > 0 && now.spec_since(buckets.last().start).nanos < width.nanos {
        let last = buckets.last();
        buckets.drop_last().push(
            Tally {
                start: last.start,
                failures: counted(last.failures as nat + fault),
                total: counted(last.total as nat + 1),
            },
        )
    } else {
        buckets.push(Tally { start: now, failures: fault as u64, total: 1 })
    }
}

/// The buckets after an outcome at `now`.
pub open spec fn recorded(
    buckets: Seq<Tally>,
    now: Instant,
    span: Duration,
    failure: bool,
) -> Seq<Tally> {
    with_outcome(kept(buckets, now, span), now, bucket_width(span), failure)
}

/// A tenth of the span, but no less than a millisecond.
pub open spec fn bucket_width(span: Duration) -> Duration {
    if span.nanos / 10 >= 1_000_000 {
        Duration { nanos: span.nanos / 10 }
    } else {
        Duration { nanos: 1_000_000 }
    }
}

/// Recorded outcomes of the last `span`.
#[derive(Debug)]
pub struct Window {
    pub span: Duration,
    pub buckets: Vec<Tally>,
}

impl Window {
    pub fn new(span: Duration) -> (w: Window)
        ensures
            w.span == span,
            w.buckets@ == Seq::<Tally>::empty(),
    {
        Window { span, buckets: Vec::new() }
    }

    pub fn clear(&mut self)
        ensures
            final(self).span == old(self).span,
            final(self).buckets@ == Seq::<Tally>::empty(),
    {
        self.buckets.clear();
    }

    /// Drop the buckets that began more than the span before `now`.
    pub fn evict(&mut self, now: Instant)
        ensures
            final(self).span == old(self).span,
            final(self).buckets@ == kept(old(self).buckets@, now, old(self).span),
    {
        let mut left: Vec<Tally> = Vec::new();
        let mut i: usize = 0;
        let span = self.span;
        let cutoff = now.checked_sub(span);
        proof {
            reveal(Seq::filter);
            assert(self.buckets@.take(0) =~= Seq::empty());
        }
        while i < self.buckets.len()
            invariant
                i <= self.buckets@.len(),
                self.buckets@ == old(self).buckets@,
                span == old(self).span,
                self.span == span,
                cutoff == (if span.nanos <= now.nanos {
                    Some(Instant { nanos: (now.nanos - span.nanos) as u128 })
                } else {
                    None
                }),
                left@ == self.buckets@.take(i as int).filter(recent(now, span)),
            decreases self.buckets@.len() - i,
        {
            let b: Tally = self.buckets[i];
            proof {
                reveal(Seq::filter);
                let next = self.buckets@.take(i + 1);
                assert(next.drop_last() =~= self.buckets@.take(i as int));
                assert(next.last() == b);
            }
            let keep = match cutoff {
                Some(t) => b.start.nanos >= t.nanos,
                None => true,
            };
            if keep {
                left.push(b);
            }
            i = i + 1;
        }
        assert(self.buckets@.take(i as int) =~= self.buckets@);
        self.buckets = left;
    }

    /// Record an outcome at `now`.
    pub fn record(&mut self, now: Instant, failure: bool)
        ensures
            final(self).span == old(self).span,
            final(self).buckets@ == recorded(old(self).buckets@, now, old(self).span, failure),
    {
        self.evict(now);
        let width = if self.span.nanos / 10 >= 1_000_000 {
            Duration { nanos: self.span.nanos / 10 }
        } else {
            Duration { nanos: 1_000_000 }
        };
        let fault: u64 = if failure {
            1
        } else {
            0
        };
        let n: usize = self.buckets.len();
        if n > 0 {
            let last: Tally = self.buckets[n - 1];
            if now.duration_since(last.start).nanos < width.nanos {
                let merged = Tally {
                    start: last.start,
                    failures: last.failures.saturating_add(fault),
                    total: last.total.saturating_add(1),
                };
                let _ = self.buckets.pop();
                self.buckets.push(merged);
                return;
            }
        }
        self.buckets.push(Tally { start: now, failures: fault, total: 1 });
    }

    /// The failures and all outcomes of the last span.
    pub fn totals(&mut self, now: Instant) -> (t: (u64, u64))
        ensures
            final(self).span == old(self).span,
            final(self).buckets@ == kept(old(self).buckets@, now, old(self).span),
            t.0 == counted(failures_in(final(self).buckets@)),
            t.1 == counted(total_in(final(self).buckets@)),
    {
        self.evict(now);
        let mut failures: u64 = 0;
        let mut total: u64 = 0;
        let mut i: usize = 0;
        let ghost buckets = self.buckets@;
        while i < self.buckets.len()
            invariant
                i <= self.buckets@.len(),
                self.buckets@ == buckets,
                failures == counted(failures_in(buckets.take(i as int))),
                total == counted(total_in(buckets.take(i as int))),
            decreases self.buckets@.len() - i,
        {
            let b: Tally = self.buckets[i];
            proof {
                let next = buckets.take(i + 1);
                assert(next.drop_last() =~= buckets.take(i as int));
                assert(next.last() == b);
            }
            failures = failures.saturating_add(b.failures);
            total = total.saturating_add(b.total);
            i = i + 1;
        }
        assert(buckets.take(i as int) =~= buckets);
        (failures, total)
    }
}

} // verus!
