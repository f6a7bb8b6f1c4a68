//! What holds of a breaker over several calls.

use vstd::prelude::*;

use crate::breaker::window;
use crate::breaker::window::Tally;
use crate::breaker::{
    BreakerModel, BreakerRuntime, CircuitBreaker, Latch, Trip, TripRule,
};
use crate::classify::ErrorPredicate;
use crate::double::{Double, Ratio};
use crate::error::BreakerState;
use crate::time::{Duration, Instant};

verus! {

impl BreakerModel {
    /// A new breaker is well formed, and every operation keeps it so. In particular a
    /// half-open breaker never has more probes under way than it is allowed.
    pub proof fn law_stays_well_formed(self, now: Instant)
        requires
            self.wf(),
        ensures
            self.after_gate(now).wf(),
            self.after_success(now).wf(),
            self.after_failure(now).wf(),
    {
    }

    /// `other` is configured to do the same.
    pub open spec fn same_configuration(self, other: BreakerModel) -> bool {
        &&& other.trip == self.trip
        &&& other.open_for == self.open_for
        &&& other.half_open_max_calls == self.half_open_max_calls
        &&& other.span == self.span
    }

    /// What the breaker is configured to do never changes.
    pub proof fn law_configuration_is_fixed(self, now: Instant)
        ensures
            self.same_configuration(self.after_gate(now)),
            self.same_configuration(self.after_success(now)),
            self.same_configuration(self.after_failure(now)),
    {
    }

    /// Once it opens, the breaker turns every call away until its time is up, and lets
    /// the first one after that through as a probe.
    pub proof fn law_open_until_cooled(self, now: Instant, later: Instant)
        requires
            self.fails(now),
        ensures
            ({
                let open = self.after_failure(now);
                let until = now.spec_after(self.open_for);
                &&& open.state() == BreakerState::Open
                &&& open.admits(later) == (later.nanos >= until.nanos)
                &&& open.admits(later) ==> open.after_gate(later).state() == BreakerState::HalfOpen
                &&& !open.admits(later) ==> open.after_gate(later) == open
            }),
    {
    }

    /// The reported state tells what a call would meet: an open breaker turns it away,
    /// any other lets it through unless all probes are under way; and the state that
    /// the call is told is the one that was reported.
    pub proof fn law_reported_state_predicts_gate(self, now: Instant)
        ensures
            self.state_at(now) == BreakerState::Open ==> !self.admits(now),
            self.state_at(now) != BreakerState::Open && self.latch !is HalfOpen ==> self.admits(
                now,
            ),
            self.admits(now) ==> self.after_gate(now).state() == self.state_at(now),
    {
    }

    /// The breaker is cooling as long as it is reported open, and the instant that is
    /// reported is the first at which it is not.
    pub proof fn law_cooling_while_open(self, now: Instant)
        ensures
            (self.cooling_until(now) is Some) == (self.state_at(now) == BreakerState::Open),
            self.cooling_until(now) matches Some(until) ==> {
                &&& now.nanos < until.nanos
                &&& self.state_at(until) == BreakerState::HalfOpen
                &&& forall|t: Instant|
                    t.nanos < until.nanos ==> #[trigger] self.state_at(t) == BreakerState::Open
            },
    {
    }

    /// The breaker after failures at `times`.
    pub open spec fn after_failures(self, times: Seq<Instant>) -> BreakerModel
        decreases times.len(),
    {
        if times.len() == 0 {
            self
        } else {
            self.after_failures(times.drop_last()).after_failure(times.last())
        }
    }

    /// A breaker that counts failures in a row stays closed until their number reaches
    /// the threshold, and opens with the failure that does.
    pub proof fn law_trips_at_threshold(self, threshold: u32, times: Seq<Instant>)
        requires
            self.latch is Closed,
            self.trip == (Trip::Consecutive { threshold }),
            times.len() > 0,
            self.consecutive_failures + times.len() <= threshold,
        ensures
            ({
                let after = self.after_failures(times);
                &&& after.consecutive_failures == self.consecutive_failures + times.len()
                &&& after.consecutive_failures < threshold ==> after.latch is Closed
                &&& after.consecutive_failures == threshold ==> after.latch == (Latch::Open {
                    until: times.last().spec_after(self.open_for),
                })
            }),
            self.after_failures(times).trip == self.trip,
            self.after_failures(times).open_for == self.open_for,
        decreases times.len(),
    {
        if times.len() > 1 {
            self.law_trips_at_threshold(threshold, times.drop_last());
        } else {
            assert(self.after_failures(times.drop_last()) == self);
        }
    }

    /// A success of a closed breaker ends a run of failures.
    pub proof fn law_success_ends_a_run(self, now: Instant)
        requires
            self.latch is Closed,
        ensures
            self.after_success(now).latch is Closed,
            self.after_success(now).consecutive_failures == 0,
    {
    }

    /// The breaker after `n` calls asked to pass at `now`, none of which has ended.
    pub open spec fn after_gates(self, now: Instant, n: nat) -> BreakerModel
        decreases n,
    {
        if n == 0 {
            self
        } else {
            self.after_gates(now, (n - 1) as nat).after_gate(now)
        }
    }

    /// Of the calls that meet an open breaker after its cooldown, as many pass as it
    /// allows probes, and the others are turned away.
    pub proof fn law_probes_are_limited(self, now: Instant, n: nat)
        requires
            self.wf(),
            self.latch matches Latch::Open { until } && now.nanos >= until.nanos,
        ensures
            n > 0 ==> self.after_gates(now, n).latch == (Latch::HalfOpen {
                in_flight: if n < self.half_open_max_calls {
                    n as u32
                } else {
                    self.half_open_max_calls
                },
                successes: 0,
            }),
            self.after_gates(now, n).admits(now) == (n < self.half_open_max_calls),
            self.after_gates(now, n).half_open_max_calls == self.half_open_max_calls,
        decreases n,
    {
        if n > 0 {
            self.law_probes_are_limited(now, (n - 1) as nat);
        }
    }

    /// The breaker after successes at `times`.
    pub open spec fn after_successes(self, times: Seq<Instant>) -> BreakerModel
        decreases times.len(),
    {
        if times.len() == 0 {
            self
        } else {
            self.after_successes(times.drop_last()).after_success(times.last())
        }
    }

    /// A half-open breaker closes with as many successes as it allows probes, and not
    /// before; one failure opens it again.
    pub proof fn law_probes_decide(self, times: Seq<Instant>, now: Instant)
        requires
            self.wf(),
            self.latch matches Latch::HalfOpen { in_flight: _, successes } && successes
                + times.len() <= self.half_open_max_calls,
        ensures
            self.latch matches Latch::HalfOpen { in_flight: _, successes } ==> {
                let after = self.after_successes(times);
                &&& after.half_open_max_calls == self.half_open_max_calls
                &&& successes + times.len() < self.half_open_max_calls
                    ==> (after.latch matches Latch::HalfOpen { in_flight: _, successes: s } && s
                    == successes + times.len())
                &&& successes + times.len() == self.half_open_max_calls ==> after.latch is Closed
                    && after.consecutive_failures == 0 && after.buckets == Seq::<Tally>::empty()
            },
            self.fails(now),
            self.after_failure(now).state() == BreakerState::Open,
        decreases times.len(),
    {
        if times.len() > 0 {
            self.law_probes_decide(times.drop_last(), now);
        }
    }

    /// A new breaker is closed, with nothing on record, and samples the window that it was
    /// configured with.
    pub proof fn law_new_breakers_are_closed(
        trip: Trip,
        open_for: Duration,
        half_open_max_calls: u32,
        now: Instant,
    )
        ensures
            ({
                let b = BreakerModel::closed(trip, open_for, half_open_max_calls);
                &&& b.latch is Closed
                &&& b.state() == BreakerState::Closed
                &&& b.state_at(now) == BreakerState::Closed
                &&& b.cooling_until(now) is None
                &&& b.admits(now)
                &&& b.consecutive_failures == 0
                &&& b.buckets.len() == 0
                &&& b.trip == trip
                &&& b.open_for == open_for
                &&& b.half_open_max_calls == half_open_max_calls
                &&& trip matches Trip::FailureRatio { ratio: _, min_throughput: _, window } ==> b.span
                    == window
            }),
    {
    }

    /// A closed breaker lets every call through and is none the wiser for it. An open one
    /// lets none through before its time is up. A half-open one lets as many through as it
    /// has room for, and counts them.
    pub proof fn law_gates_by_state(self, now: Instant)
        ensures
            match self.latch {
                Latch::Closed => {
                    &&& self.state_at(now) == BreakerState::Closed
                    &&& self.cooling_until(now) is None
                    &&& self.admits(now)
                    &&& self.after_gate(now) == self
                },
                Latch::Open { until } => {
                    &&& self.state_at(now) == (if now.nanos < until.nanos {
                        BreakerState::Open
                    } else {
                        BreakerState::HalfOpen
                    })
                    &&& self.cooling_until(now) == (if now.nanos < until.nanos {
                        Some(until)
                    } else {
                        None
                    })
                    &&& self.admits(now) == (until.nanos <= now.nanos)
                    &&& self.admits(now) ==> self.after_gate(now).latch == (Latch::HalfOpen {
                        in_flight: 1,
                        successes: 0,
                    })
                    &&& !self.admits(now) ==> self.after_gate(now) == self
                },
                Latch::HalfOpen { in_flight, successes } => {
                    &&& self.state_at(now) == BreakerState::HalfOpen
                    &&& self.cooling_until(now) is None
                    &&& self.admits(now) == (in_flight < self.half_open_max_calls)
                    &&& self.admits(now) ==> (self.after_gate(now).latch matches Latch::HalfOpen {
                        in_flight: more,
                        successes: same,
                    } && more == in_flight + 1 && same == successes)
                    &&& !self.admits(now) ==> self.after_gate(now) == self
                },
            },
            self.after_gate(now).consecutive_failures == self.consecutive_failures,
            self.after_gate(now).buckets == self.buckets,
    {
    }

    /// A probe that succeeds makes room for another, unless it was the last that was needed;
    /// one that fails opens the breaker for its full time, whatever came before. Neither
    /// touches what a closed breaker had on record, except that closing wipes it.
    pub proof fn law_probes_make_room(self, now: Instant)
        requires
            self.wf(),
            self.latch is HalfOpen,
            now.nanos + self.open_for.nanos <= u128::MAX,
        ensures
            self.latch matches Latch::HalfOpen { in_flight, successes } ==> {
                let after = self.after_success(now);
                &&& self.recovers() == (successes + 1 == self.half_open_max_calls)
                &&& self.recovers() ==> after.latch is Closed && after.consecutive_failures == 0
                    && after.buckets.len() == 0
                &&& !self.recovers() ==> {
                    &&& after.latch matches Latch::HalfOpen { in_flight: fewer, successes: more }
                        && more == successes + 1 && (in_flight > 0 ==> fewer == in_flight - 1) && (
                    in_flight == 0 ==> fewer == 0)
                    &&& after.consecutive_failures == self.consecutive_failures
                    &&& after.buckets == self.buckets
                }
            },
            self.opens(now),
            self.after_failure(now).latch matches Latch::Open { until } && until.nanos == now.nanos
                + self.open_for.nanos,
            self.after_failure(now).consecutive_failures == self.consecutive_failures,
            self.after_failure(now).buckets == self.buckets,
    {
    }

    /// What comes in late does not close an open breaker: a success leaves its time alone,
    /// and a failure either does too or starts it anew. Neither is told as a change.
    pub proof fn law_late_outcomes_do_not_close(self, now: Instant)
        requires
            self.latch is Open,
        ensures
            self.after_success(now).latch == self.latch,
            self.after_success(now).consecutive_failures == 0,
            !self.recovers(),
            !self.opens(now),
            self.after_failure(now).latch == self.latch || self.after_failure(now).latch == (
            Latch::Open { until: now.spec_after(self.open_for) }),
    {
    }

    /// A closed breaker opens with a failure or stays closed; a success never opens it, and
    /// every change of it is told.
    pub proof fn law_only_failures_open(self, now: Instant)
        requires
            self.latch is Closed,
            now.nanos + self.open_for.nanos <= u128::MAX,
        ensures
            self.after_success(now).latch is Closed,
            !self.recovers(),
            self.opens(now) == (self.after_failure(now).latch !is Closed),
            self.opens(now) ==> (self.after_failure(now).latch matches Latch::Open { until }
                && until.nanos == now.nanos + self.open_for.nanos),
            self.after_failure(now).consecutive_failures == if self.consecutive_failures
                < u32::MAX {
                self.consecutive_failures + 1
            } else {
                u32::MAX as int
            },
    {
    }

    /// A breaker that counts failures in a row opens exactly with the one that makes up the
    /// threshold, whatever its window holds.
    pub proof fn law_runs_trip_by_their_length(self, threshold: u32, now: Instant)
        requires
            self.latch is Closed,
            self.trip == (Trip::Consecutive { threshold }),
            self.consecutive_failures < u32::MAX,
        ensures
            self.opens(now) == (self.consecutive_failures + 1 >= threshold),
    {
    }

    /// A breaker that goes by the share of failures opens exactly where the window holds
    /// enough outcomes, this failure included, and enough of them are failures, whatever
    /// number of them came in a row.
    pub proof fn law_shares_trip_by_their_counts(
        self,
        ratio: crate::double::Ratio,
        min_throughput: u32,
        window: Duration,
        now: Instant,
    )
        requires
            self.latch is Closed,
            self.trip == (Trip::FailureRatio { ratio, min_throughput, window }),
            forall|i: int|
                0 <= i < self.buckets.len() ==> (#[trigger] self.buckets[i]).total < u64::MAX
                    && self.buckets[i].failures < u64::MAX,
            window::total_in(window::kept(self.buckets, now, self.span)) < u64::MAX,
            window::failures_in(window::kept(self.buckets, now, self.span)) < u64::MAX,
        ensures
            ({
                let seen = window::kept(self.buckets, now, self.span);
                let total = (window::total_in(seen) + 1) as nat;
                let failures = (window::failures_in(seen) + 1) as nat;
                &&& self.opens(now) == (total >= min_throughput && crate::double::share_reaches(
                    failures,
                    total,
                    ratio.spec_value(),
                ))
                &&& window::total_in(self.after_failure(now).buckets) == total
                &&& window::failures_in(self.after_failure(now).buckets) == failures
                &&& window::total_in(self.after_success(now).buckets) == total
                &&& window::failures_in(self.after_success(now).buckets) == failures - 1
            }),
    {
        assert forall|i: int| 0 <= i < self.buckets.len() implies #[trigger] self.buckets[i].total
            < u64::MAX by {
            let b = self.buckets[i];
        }
        assert forall|i: int|
            0 <= i < self.buckets.len() implies #[trigger] self.buckets[i].failures < u64::MAX by {
            let b = self.buckets[i];
        }
        law_window_counts_the_span(self.buckets, now, self.span, true);
        law_window_counts_the_span(self.buckets, now, self.span, false);
        lemma_all_recent(window::recorded(self.buckets, now, self.span, true), now, self.span);
    }

    /// The breaker after a history of outcomes.
    pub open spec fn after_outcomes(self, history: Seq<Outcome>) -> BreakerModel
        decreases history.len(),
    {
        if history.len() == 0 {
            self
        } else {
            let before = self.after_outcomes(history.drop_last());
            let last = history.last();
            if last.1 {
                before.after_failure(last.0)
            } else {
                before.after_success(last.0)
            }
        }
    }

    /// Over a whole history that lies within the window, a new breaker that goes by the share
    /// of failures opens with the first failure at which the outcomes so far are enough and
    /// the failures among them make up the share, in whatever order they came: while it has
    /// not opened, it opens with the next failure exactly where that holds.
    pub proof fn law_shares_count_the_history(
        self,
        ratio: crate::double::Ratio,
        min_throughput: u32,
        history: Seq<Outcome>,
        now: Instant,
    )
        requires
            self.latch is Closed,
            self.trip == (Trip::FailureRatio { ratio, min_throughput, window: self.span }),
            self.buckets.len() == 0,
            history.len() < u64::MAX,
            in_time(history.push((now, true))),
            forall|i: int|
                0 <= i < history.len() ==> (#[trigger] history[i]).0.nanos
                    + self.span.nanos >= now.nanos + window::bucket_width(self.span).nanos,
            forall|k: int|
                0 <= k <= history.len() ==> self.after_outcomes(#[trigger] history.take(k)).latch
                    is Closed,
        ensures
            ({
                let total = history.len() + 1;
                let failures = (since(history, 0, true) + 1) as nat;
                self.after_outcomes(history).opens(now) == (total >= min_throughput
                    && crate::double::share_reaches(failures, total, ratio.spec_value()))
            }),
    {
        assert(history.take(history.len() as int) =~= history);
        let before = self.after_outcomes(history);
        assert(in_time(history)) by {
            let all = history.push((now, true));
            assert forall|i: int, j: int| 0 <= i <= j < history.len() implies #[trigger] history[i].0.nanos
                <= #[trigger] history[j].0.nanos by {
                assert(all[i].0.nanos <= all[j].0.nanos);
            }
        }
        assert forall|i: int| 0 <= i < history.len() implies (#[trigger] history[i]).0.nanos
            <= now.nanos by {
            let all = history.push((now, true));
            assert(all[i].0.nanos <= all[history.len() as int].0.nanos);
        }
        self.lemma_buckets_follow(history);
        let span = self.span;
        let oldest = now.nanos - span.nanos;
        law_window_covers_the_history(history, span, now);
        lemma_filled(history, span, oldest);
        lemma_since_all(history, oldest + window::bucket_width(span).nanos);
        lemma_since_all(history, oldest);
        lemma_since_all(history, 0);
        let f = filled(history, span);
        assert forall|i: int| 0 <= i < before.buckets.len() implies (
        #[trigger] before.buckets[i]).total < u64::MAX && before.buckets[i].failures < u64::MAX by {
            assert(before.buckets[i] == f[i]);
        }
        before.law_shares_trip_by_their_counts(ratio, min_throughput, span, now);
    }

    /// While a breaker stays closed its window holds what was recorded.
    proof fn lemma_buckets_follow(self, history: Seq<Outcome>)
        requires
            self.latch is Closed,
            self.trip is FailureRatio,
            self.buckets.len() == 0,
            in_time(history),
            forall|k: int|
                0 <= k <= history.len() ==> self.after_outcomes(#[trigger] history.take(k)).latch
                    is Closed,
        ensures
            self.after_outcomes(history).buckets == filled(history, self.span),
            self.after_outcomes(history).trip == self.trip,
            self.after_outcomes(history).span == self.span,
            self.after_outcomes(history).latch is Closed,
        decreases history.len(),
    {
        assert(history.take(history.len() as int) =~= history);
        if history.len() > 0 {
            let fewer = history.drop_last();
            let last = history.last();
            assert forall|k: int| 0 <= k <= fewer.len() implies self.after_outcomes(
                #[trigger] fewer.take(k),
            ).latch is Closed by {
                assert(fewer.take(k) =~= history.take(k));
            }
            assert(in_time(fewer)) by {
                assert forall|i: int, j: int|
                    0 <= i <= j < fewer.len() implies #[trigger] fewer[i].0.nanos
                    <= #[trigger] fewer[j].0.nanos by {
                    assert(history[i].0.nanos <= history[j].0.nanos);
                }
            }
            self.lemma_buckets_follow(fewer);
            let before = self.after_outcomes(fewer);
            lemma_recorded_is_recent(before.buckets, last.0, self.span, last.1);
            lemma_all_recent(
                window::recorded(before.buckets, last.0, self.span, last.1),
                last.0,
                self.span,
            );
        } else {
            assert(self.buckets =~= filled(history, self.span));
        }
    }

    /// A share of failures trips nothing before enough outcomes were seen.
    pub proof fn law_minimum_throughput(self, now: Instant)
        requires
            self.trip matches Trip::FailureRatio { ratio: _, min_throughput, window: _ }
                && window::counted(
                window::total_in(window::kept(self.buckets, now, self.span)),
            ) < min_throughput,
        ensures
            !self.trips(now),
    {
    }
}

/// An outcome adds one to the window, and one to its failures if it is one; nothing
/// in the window began more than the span before.
pub proof fn law_window_counts_the_span(
    buckets: Seq<Tally>,
    now: Instant,
    span: Duration,
    failure: bool,
)
    requires
        forall|i: int| 0 <= i < buckets.len() ==> #[trigger] buckets[i].total < u64::MAX,
        forall|i: int| 0 <= i < buckets.len() ==> #[trigger] buckets[i].failures < u64::MAX,
    ensures
        window::total_in(window::recorded(buckets, now, span, failure)) == window::total_in(
            window::kept(buckets, now, span),
        ) + 1,
        window::failures_in(window::recorded(buckets, now, span, failure)) == window::failures_in(
            window::kept(buckets, now, span),
        ) + if failure {
            1int
        } else {
            0
        },
        forall|i: int|
            0 <= i < window::recorded(buckets, now, span, failure).len()
                ==> #[trigger] window::recorded(
                buckets,
                now,
                span,
                failure,
            )[i].start.nanos + span.nanos >= now.nanos,
{
    let left = window::kept(buckets, now, span);
    let after = window::recorded(buckets, now, span, failure);
    assert(forall|i: int| 0 <= i < left.len() ==> window::recent(now, span)(#[trigger] left[i]));
    assert forall|i: int| 0 <= i < left.len() implies buckets.contains(#[trigger] left[i]) by {
        buckets.lemma_filter_contains_rev(window::recent(now, span), left[i]);
    }
    assert(after.last().start.nanos + span.nanos >= now.nanos);
    if after.len() == left.len() {
        assert(after.drop_last() =~= left.drop_last());
        assert(buckets.contains(left.last()));
    } else {
        assert(after.drop_last() =~= left);
    }
}

/// Buckets that are all recent are all kept.
proof fn lemma_all_recent(buckets: Seq<Tally>, now: Instant, span: Duration)
    requires
        forall|i: int|
            0 <= i < buckets.len() ==> #[trigger] buckets[i].start.nanos + span.nanos >= now.nanos,
    ensures
        window::kept(buckets, now, span) == buckets,
    decreases buckets.len(),
{
    reveal(Seq::filter);
    if buckets.len() > 0 {
        let fewer = buckets.drop_last();
        assert forall|i: int| 0 <= i < fewer.len() implies #[trigger] fewer[i].start.nanos
            + span.nanos >= now.nanos by {
            assert(buckets[i].start.nanos + span.nanos >= now.nanos);
        }
        lemma_all_recent(fewer, now, span);
        assert(buckets[buckets.len() - 1].start.nanos + span.nanos >= now.nanos);
        assert(window::recent(now, span)(buckets.last()));
        assert(fewer.push(buckets.last()) =~= buckets);
    } else {
        assert(window::kept(buckets, now, span) =~= buckets);
    }
}

proof fn lemma_recorded_is_recent(
    buckets: Seq<Tally>,
    now: Instant,
    span: Duration,
    failure: bool,
)
    ensures
        forall|i: int|
            0 <= i < window::recorded(buckets, now, span, failure).len()
                ==> #[trigger] window::recorded(
                buckets,
                now,
                span,
                failure,
            )[i].start.nanos + span.nanos >= now.nanos,
{
    let left = window::kept(buckets, now, span);
    assert(forall|i: int| 0 <= i < left.len() ==> window::recent(now, span)(#[trigger] left[i]));
}

/// A bucket is a tenth of the span wide, but no less than a millisecond.
pub proof fn law_buckets_are_a_tenth(span: Duration)
    ensures
        ({
            let width = window::bucket_width(span).nanos;
            &&& width >= 1_000_000
            &&& 10 * width <= span.nanos || width == 1_000_000
            &&& span.nanos < 10 * width + 10
        }),
{
}

proof fn lemma_since_all(history: Seq<Outcome>, from: int)
    requires
        forall|i: int| 0 <= i < history.len() ==> (#[trigger] history[i]).0.nanos >= from,
    ensures
        since(history, from, false) == history.len(),
        since(history, from, true) == since(history, 0, true),
        since(history, 0, true) <= history.len(),
    decreases history.len(),
{
    if history.len() > 0 {
        let fewer = history.drop_last();
        assert forall|i: int| 0 <= i < fewer.len() implies (#[trigger] fewer[i]).0.nanos
            >= from by {
            assert(history[i].0.nanos >= from);
        }
        lemma_since_all(fewer, from);
        assert(history[history.len() - 1].0.nanos >= from);
    }
}

/// An outcome and when it was recorded: a failure, or not.
pub type Outcome = (Instant, bool);

/// The buckets after a history of outcomes.
pub open spec fn filled(history: Seq<Outcome>, span: Duration) -> Seq<Tally>
    decreases history.len(),
{
    if history.len() == 0 {
        Seq::empty()
    } else {
        let last = history.last();
        window::recorded(filled(history.drop_last(), span), last.0, span, last.1)
    }
}

/// How many outcomes of a history were recorded at `from` or later, or how many failures.
pub open spec fn since(history: Seq<Outcome>, from: int, failures: bool) -> nat
    decreases history.len(),
{
    if history.len() == 0 {
        0
    } else {
        since(history.drop_last(), from, failures) + if history.last().0.nanos >= from && (!failures
            || history.last().1) {
            1nat
        } else {
            0
        }
    }
}

/// The times of a history never go back.
pub open spec fn in_time(history: Seq<Outcome>) -> bool {
    forall|i: int, j: int|
        0 <= i <= j < history.len() ==> #[trigger] history[i].0.nanos
            <= #[trigger] history[j].0.nanos
}

spec fn share(b: Tally, failures: bool) -> nat {
    if failures {
        b.failures as nat
    } else {
        b.total as nat
    }
}

/// The outcomes, or the failures, of the buckets that began at `from` or later.
spec fn counted_from(buckets: Seq<Tally>, from: int, failures: bool) -> nat
    decreases buckets.len(),
{
    if buckets.len() == 0 {
        0
    } else {
        counted_from(buckets.drop_last(), from, failures) + if buckets.last().start.nanos >= from {
            share(buckets.last(), failures)
        } else {
            0
        }
    }
}

proof fn lemma_kept_counts(buckets: Seq<Tally>, now: Instant, span: Duration, from: int)
    requires
        from >= now.nanos - span.nanos,
    ensures
        counted_from(window::kept(buckets, now, span), from, true) == counted_from(
            buckets,
            from,
            true,
        ),
        counted_from(window::kept(buckets, now, span), from, false) == counted_from(
            buckets,
            from,
            false,
        ),
        window::failures_in(window::kept(buckets, now, span)) == counted_from(
            buckets,
            now.nanos - span.nanos,
            true,
        ),
        window::total_in(window::kept(buckets, now, span)) == counted_from(
            buckets,
            now.nanos - span.nanos,
            false,
        ),
    decreases buckets.len(),
{
    reveal(Seq::filter);
    if buckets.len() > 0 {
        let fewer = buckets.drop_last();
        lemma_kept_counts(fewer, now, span, from);
        let left = window::kept(fewer, now, span);
        if window::recent(now, span)(buckets.last()) {
            assert(window::kept(buckets, now, span) =~= left.push(buckets.last()));
            assert(left.push(buckets.last()).drop_last() =~= left);
        } else {
            assert(window::kept(buckets, now, span) =~= left);
        }
    }
}

/// What the buckets hold of a history, seen from any time from which nothing was dropped
/// yet.
proof fn lemma_filled(history: Seq<Outcome>, span: Duration, from: int)
    requires
        history.len() <= u64::MAX,
        in_time(history),
        history.len() > 0 ==> from >= history.last().0.nanos - span.nanos,
    ensures
        forall|i: int|
            0 <= i < filled(history, span).len() ==> {
                let b = #[trigger] filled(history, span)[i];
                &&& b.failures <= b.total <= history.len()
                &&& history.len() > 0 && b.start.nanos <= history.last().0.nanos
            },
        forall|failures: bool|
            since(history, from + window::bucket_width(span).nanos, failures)
                <= #[trigger] counted_from(filled(history, span), from, failures) <= since(
                history,
                from,
                failures,
            ),
    decreases history.len(),
{
    if history.len() > 0 {
        let before = history.drop_last();
        let (now, failure) = history.last();
        let old_buckets = filled(before, span);
        let left = window::kept(old_buckets, now, span);
        let after = filled(history, span);
        let width = window::bucket_width(span);
        assert(in_time(before)) by {
            assert forall|i: int, j: int| 0 <= i <= j < before.len() implies #[trigger] before[i].0.nanos
                <= #[trigger] before[j].0.nanos by {
                assert(history[i].0.nanos <= history[j].0.nanos);
            }
        }
        if before.len() > 0 {
            assert(history[before.len() - 1].0.nanos <= history[before.len() as int].0.nanos);
        }
        lemma_filled(before, span, from);
        lemma_kept_counts(old_buckets, now, span, from);
        assert forall|i: int| 0 <= i < left.len() implies {
            let b = #[trigger] left[i];
            &&& b.failures <= b.total <= before.len()
            &&& b.start.nanos <= now.nanos
        } by {
            old_buckets.lemma_filter_contains_rev(window::recent(now, span), left[i]);
            let k = choose|k: int| 0 <= k < old_buckets.len() && old_buckets[k] == left[i];
            assert(old_buckets[k] == left[i]);
        }
        if left.len() > 0 && now.spec_since(left.last().start).nanos < width.nanos {
            assert(after.drop_last() =~= left.drop_last());
            assert(after.last().start == left.last().start);
        } else {
            assert(after.drop_last() =~= left);
        }
        assert forall|failures: bool|
            since(history, from + width.nanos, failures) <= #[trigger] counted_from(
                after,
                from,
                failures,
            ) <= since(history, from, failures) by {
            let held = counted_from(old_buckets, from, failures);
            assert(since(before, from + width.nanos, failures) <= held <= since(
                before,
                from,
                failures,
            ));
            assert(counted_from(left, from, failures) == held);
        }
        assert forall|i: int| 0 <= i < after.len() implies {
            let b = #[trigger] after[i];
            &&& b.failures <= b.total <= history.len()
            &&& b.start.nanos <= now.nanos
        } by {
            if i < after.len() - 1 {
                assert(after[i] == after.drop_last()[i]);
                assert(after[i] == left[i]);
            }
        }
    }
}

/// Over a whole history the window counts nothing older than its span, and everything
/// that is younger than the span less the width of a bucket; and of failures the same.
pub proof fn law_window_covers_the_history(history: Seq<Outcome>, span: Duration, now: Instant)
    requires
        history.len() <= u64::MAX,
        in_time(history),
        history.len() > 0 ==> history.last().0.nanos <= now.nanos,
    ensures
        ({
            let seen = window::kept(filled(history, span), now, span);
            let oldest = now.nanos - span.nanos;
            let width = window::bucket_width(span).nanos;
            &&& since(history, oldest + width, false) <= window::total_in(seen) <= since(
                history,
                oldest,
                false,
            )
            &&& since(history, oldest + width, true) <= window::failures_in(seen) <= since(
                history,
                oldest,
                true,
            )
        }),
{
    let oldest = now.nanos - span.nanos;
    lemma_filled(history, span, oldest);
    lemma_kept_counts(filled(history, span), now, span, oldest);
    assert(counted_from(filled(history, span), oldest, true) <= since(history, oldest, true));
    assert(counted_from(filled(history, span), oldest, false) <= since(history, oldest, false));
}

/// A breaker that counts failures in a row trips after so many as it was made for, but at
/// least after one; it stays open for half a minute and probes with one call until it is told
/// otherwise, and what is set stays set. What only a share of failures has is not taken on.
pub proof fn law_breakers_are_as_configured<E>(
    n: u32,
    calls: u32,
    open_for: Duration,
    plain: CircuitBreaker<E>,
    opening: CircuitBreaker<E>,
    probing: CircuitBreaker<E>,
    live: (BreakerRuntime, Option<ErrorPredicate<E>>),
)
    requires
        call_ensures(CircuitBreaker::<E>::consecutive_failures, (n,), plain),
        call_ensures(CircuitBreaker::<E>::open_for, (plain, open_for), opening),
        call_ensures(CircuitBreaker::<E>::half_open_max_calls, (opening, calls), probing),
        call_ensures(CircuitBreaker::<E>::compile, (probing,), live),
    ensures
        plain@.open_for.nanos == 30_000_000_000,
        plain@.half_open_max_calls == 1,
        live.0@.latch is Closed,
        live.0@.consecutive_failures == 0,
        live.0@.open_for == open_for,
        live.0@.half_open_max_calls == if calls == 0 {
            1
        } else {
            calls
        },
        live.0@.trip matches Trip::Consecutive { threshold } && threshold == if n == 0 {
            1
        } else {
            n
        },
        live.1 is None,
{
}

/// A breaker that goes by the share of failures trips at half of ten outcomes in half a minute
/// until it is told otherwise, and what is set stays set; the share is clamped to the unit
/// interval as the breaker goes live.
pub proof fn law_ratio_breakers_are_as_configured<E>(
    share: Double,
    least: u32,
    window: Duration,
    plain: CircuitBreaker<E>,
    shared: CircuitBreaker<E>,
    busy: CircuitBreaker<E>,
    windowed: CircuitBreaker<E>,
    live: (BreakerRuntime, Option<ErrorPredicate<E>>),
)
    requires
        call_ensures(CircuitBreaker::<E>::failure_ratio, (), plain),
        call_ensures(CircuitBreaker::<E>::failure_ratio_value, (plain, share), shared)
            || call_ensures(CircuitBreaker::<E>::ratio, (plain, share), shared),
        call_ensures(CircuitBreaker::<E>::minimum_throughput, (shared, least), busy),
        call_ensures(CircuitBreaker::<E>::sampling_window, (busy, window), windowed),
        call_ensures(CircuitBreaker::<E>::compile, (windowed,), live),
    ensures
        plain@.trip matches TripRule::FailureRatio { ratio, min_throughput, window } && ratio.bits
            == 0x3FE0_0000_0000_0000 && min_throughput == 10 && window.nanos == 30_000_000_000,
        live.0@.trip matches Trip::FailureRatio { ratio, min_throughput, window: w }
            && ratio.spec_value() == share.clamped() && min_throughput == least && w == window,
        live.0@.span == window,
        live.0@.buckets.len() == 0,
        live.0@.latch is Closed,
        live.0@.open_for.nanos == 30_000_000_000,
        live.0@.half_open_max_calls == 1,
        live.1 is None,
{
    Ratio::lemma_of(share);
}

impl BreakerModel {
    /// Whatever happens to a breaker, it keeps to what it was configured to do.
    pub proof fn law_configuration_is_kept(self, now: Instant)
        ensures
            self.after_gate(now).trip == self.trip,
            self.after_gate(now).open_for == self.open_for,
            self.after_gate(now).half_open_max_calls == self.half_open_max_calls,
            self.after_gate(now).span == self.span,
            self.after_success(now).trip == self.trip,
            self.after_success(now).open_for == self.open_for,
            self.after_success(now).half_open_max_calls == self.half_open_max_calls,
            self.after_success(now).span == self.span,
            self.after_failure(now).trip == self.trip,
            self.after_failure(now).open_for == self.open_for,
            self.after_failure(now).half_open_max_calls == self.half_open_max_calls,
            self.after_failure(now).span == self.span,
    {
    }
}

} // verus!
