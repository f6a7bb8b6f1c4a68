//! Retry policy, backoff schedules, jitter and the retry budget.

pub mod backoff;
pub mod budget;
pub mod jitter;

pub use backoff::Backoff;
pub use budget::RetryBudget;
pub use jitter::Jitter;

use vstd::prelude::*;

use crate::classify::{
    Classifier, ErrorPredicate, OutcomeClassifier, RetryAfterExtractor, RetryDecision,
};
use crate::runtime::Core;
use crate::time::Duration;

verus! {

/// Retry configuration: attempt cap, backoff, jitter, classification, budget.
#[verifier::reject_recursive_types(T)]
#[verifier::reject_recursive_types(E)]
pub struct Retry<T, E> {
    max_attempts: u32,
    max_elapsed: Option<Duration>,
    backoff: Backoff,
    jitter: Jitter,
    classifier: Classifier<T, E>,
    budget: Option<RetryBudget>,
    retry_after: Option<RetryAfterExtractor<E>>,
}

/// What a [`Retry`] is configured to do.
#[verifier::reject_recursive_types(T)]
#[verifier::reject_recursive_types(E)]
pub ghost struct RetryModel<T, E> {
    pub max_attempts: u32,
    pub max_elapsed: Option<Duration>,
    pub backoff: Backoff,
    pub jitter: Jitter,
    pub budget: Option<RetryBudget>,
    /// The decisions that may be taken on an outcome.
    pub decides: spec_fn(Result<T, E>, RetryDecision) -> bool,
    /// The delay hints that may be found in an error.
    pub hints: spec_fn(E, Option<Duration>) -> bool,
}

/// Retry every error, stop on every success.
pub open spec fn retries_all<T, E>() -> spec_fn(Result<T, E>, RetryDecision) -> bool {
    |o: Result<T, E>, d: RetryDecision|
        d == if o is Ok {
            RetryDecision::Stop
        } else {
            RetryDecision::Retry
        }
}

/// Find no hint in any error.
pub open spec fn no_hints<E>() -> spec_fn(E, Option<Duration>) -> bool {
    |e: E, hint: Option<Duration>| hint is None
}

/// What an optional reference refers to.
pub open spec fn referent<E>(r: Option<&E>) -> Option<E> {
    match r {
        Some(e) => Some(*e),
        None => None,
    }
}

/// A delay of `nanos`, made at least as long as `hint`.
pub open spec fn floored(nanos: nat, hint: Option<Duration>) -> nat {
    match hint {
        Some(h) => if h.nanos > nanos {
            h.nanos as nat
        } else {
            nanos
        },
        None => nanos,
    }
}

impl<T, E> RetryModel<T, E> {
    /// The configuration with `max_attempts` and `backoff`, and nothing else set.
    pub open spec fn plain(max_attempts: u32, backoff: Backoff) -> Self {
        RetryModel {
            max_attempts,
            max_elapsed: None,
            backoff,
            jitter: Jitter::Off,
            budget: None,
            decides: retries_all(),
            hints: no_hints(),
        }
    }

    /// `hint` may be found in the last error, if there is one.
    pub open spec fn hinted(self, last_err: Option<E>, hint: Option<Duration>) -> bool {
        match last_err {
            Some(e) => (self.hints)(e, hint),
            None => hint is None,
        }
    }

    /// The backoff after `attempt`, with jitter, in nanoseconds.
    pub open spec fn jittered(self, attempt: u32, draw: u64) -> nat {
        self.jitter.applied(self.backoff.schedule(attempt), draw)
    }

    /// `d` may be the delay after `attempt` on random number `draw`: the jittered
    /// backoff, made at least as long as a hint found in the last error.
    pub open spec fn delays(
        self,
        attempt: u32,
        draw: u64,
        last_err: Option<E>,
        d: Duration,
    ) -> bool {
        exists|hint: Option<Duration>| #[trigger]
            self.hinted(last_err, hint) && d.nanos == floored(self.jittered(attempt, draw), hint)
    }

    /// A hint is a hard lower bound: whatever the jitter, and whatever the cap of the
    /// backoff, the delay does not fall below what the error asks for.
    pub proof fn law_hint_is_a_floor(
        self,
        attempt: u32,
        draw: u64,
        err: E,
        least: Duration,
        d: Duration,
    )
        requires
            forall|hint: Option<Duration>| #[trigger]
                (self.hints)(err, hint) ==> (hint matches Some(h) && h.nanos >= least.nanos),
            self.delays(attempt, draw, Some(err), d),
        ensures
            d.nanos >= least.nanos,
    {
        let hint = choose|hint: Option<Duration>| #[trigger]
            self.hinted(Some(err), hint) && d.nanos == floored(
                self.jittered(attempt, draw),
                hint,
            );
        assert((self.hints)(err, hint));
    }

    /// The delay is the longer of the backoff, as jitter left it, and the hint, if there is
    /// one. Without jitter the backoff is that of the schedule; equal jitter leaves at least
    /// half of it, and none leaves more than all of it.
    pub proof fn law_delays_are_backoff_or_hint(
        self,
        attempt: u32,
        draw: u64,
        last_err: Option<E>,
        hint: Option<Duration>,
        d: Duration,
    )
        requires
            self.delays(attempt, draw, last_err, d),
            match last_err {
                Some(e) => forall|h: Option<Duration>| #[trigger] (self.hints)(e, h) ==> h == hint,
                None => hint is None,
            },
        ensures
            ({
                let whole = self.backoff.schedule(attempt);
                let least: nat = match hint {
                    Some(h) => h.nanos as nat,
                    None => 0,
                };
                &&& least <= d.nanos
                &&& d.nanos == least || d.nanos <= whole
                &&& self.jitter == Jitter::Off ==> d.nanos == if least > whole {
                    least
                } else {
                    whole
                }
                &&& self.jitter == Jitter::Equal ==> d.nanos >= whole / 2
                &&& self.jitter == Jitter::Full && d.nanos > least ==> d.nanos
                    * 0x20_0000_0000_0000 <= (draw as nat / 0x800) * whole < (d.nanos + 1)
                    * 0x20_0000_0000_0000
                &&& self.jitter == Jitter::Full ==> (draw as nat / 0x800) * whole < (d.nanos + 1)
                    * 0x20_0000_0000_0000
            }),
    {
        let whole = self.backoff.schedule(attempt);
        let found = choose|h: Option<Duration>| #[trigger]
            self.hinted(last_err, h) && d.nanos == floored(self.jittered(attempt, draw), h);
        assert(found == hint);
        self.jitter.law_bounds(whole, draw);
        self.jitter.law_draws_spread_the_delay(whole, draw);
    }

    /// Unless it is told otherwise, a policy retries every error and no value, and finds no
    /// hint in any error.
    pub proof fn law_errors_are_retried_by_default(
        max_attempts: u32,
        backoff: Backoff,
        outcome: Result<T, E>,
        decision: RetryDecision,
        error: E,
        hint: Option<Duration>,
    )
        ensures
            ({
                let plain = RetryModel::<T, E>::plain(max_attempts, backoff);
                &&& (plain.decides)(outcome, decision) == (outcome is Err <==> decision
                    == RetryDecision::Retry)
                &&& (plain.hints)(error, hint) == (hint is None)
                &&& plain.max_attempts == max_attempts
                &&& plain.backoff == backoff
                &&& plain.max_elapsed is None
                &&& plain.budget is None
                &&& plain.jitter == Jitter::Off
            }),
    {
    }

    /// Without a hint the delay is the jittered backoff, which never exceeds the
    /// backoff itself.
    pub proof fn law_no_hint_no_floor(self, attempt: u32, draw: u64, d: Duration)
        requires
            self.delays(attempt, draw, None, d),
        ensures
            d.nanos == self.jittered(attempt, draw),
            d.nanos <= self.backoff.schedule(attempt),
    {
        self.jitter.law_bounds(self.backoff.schedule(attempt), draw);
    }
}

impl<T, E> View for Retry<T, E> {
    type V = RetryModel<T, E>;

    closed spec fn view(&self) -> RetryModel<T, E> {
        RetryModel {
            max_attempts: self.max_attempts,
            max_elapsed: self.max_elapsed,
            backoff: self.backoff,
            jitter: self.jitter,
            budget: self.budget,
            decides: |o: Result<T, E>, d: RetryDecision| self.classifier.decides(o, d),
            hints: |e: E, hint: Option<Duration>|
                match self.retry_after {
                    Some(f) => f.answers(e, hint),
                    None => hint is None,
                },
        }
    }
}

impl<T, E> Retry<T, E> {
    fn base(max_attempts: u32, backoff: Backoff) -> (r: Self)
        ensures
            r@ == RetryModel::<T, E>::plain(max_attempts, backoff),
    {
        let r = Retry {
            max_attempts,
            max_elapsed: None,
            backoff,
            jitter: Jitter::Off,
            classifier: Classifier::RetryAll,
            budget: None,
            retry_after: None,
        };
        assert(r@.decides =~= retries_all::<T, E>());
        assert(r@.hints =~= no_hints::<E>());
        r
    }

    /// No retries: a single attempt.
    pub fn none() -> (r: Self)
        ensures
            r@ == RetryModel::<T, E>::plain(1, Backoff::Fixed(Duration { nanos: 0 })),
    {
        Self::base(1, Backoff::fixed(Duration::zero()))
    }

    /// Retries at a constant delay, three attempts unless set otherwise.
    pub fn fixed(delay: Duration) -> (r: Self)
        ensures
            r@ == RetryModel::<T, E>::plain(3, Backoff::Fixed(delay)),
    {
        Self::base(3, Backoff::fixed(delay))
    }

    /// Exponential backoff: three attempts, 100 ms base, 10 s cap, no jitter, unless
    /// set otherwise.
    pub fn exponential() -> (r: Self)
        ensures
            r@ == RetryModel::<T, E>::plain(
                3,
                Backoff::Exponential {
                    base: Duration { nanos: 100_000_000 },
                    max: Duration { nanos: 10_000_000_000 },
                },
            ),
    {
        Self::base(3, Backoff::exponential(Duration::from_millis(100), Duration::from_secs(10)))
    }

    /// A sensible default: exponential backoff with a 2 s cap and full jitter, four
    /// attempts. Pair it with [`Retry::when`] to retry transient errors only.
    pub fn standard() -> (r: Self)
        ensures
            r@ == (RetryModel {
                jitter: Jitter::Full,
                ..RetryModel::<T, E>::plain(
                    4,
                    Backoff::Exponential {
                        base: Duration { nanos: 100_000_000 },
                        max: Duration { nanos: 2_000_000_000 },
                    },
                )
            }),
    {
        Self::base(
            4,
            Backoff::exponential(Duration::from_millis(100), Duration::from_secs(2)),
        ).jitter(Jitter::Full)
    }

    pub fn max_attempts(self, n: u32) -> (r: Self)
        ensures
            r@ == (RetryModel { max_attempts: n, ..self@ }),
    {
        Retry { max_attempts: n, ..self }
    }

    pub fn max_elapsed(self, d: Duration) -> (r: Self)
        ensures
            r@ == (RetryModel { max_elapsed: Some(d), ..self@ }),
    {
        Retry { max_elapsed: Some(d), ..self }
    }

    /// Set the first delay of an exponential schedule, or the delay of a fixed one.
    pub fn base_delay(self, d: Duration) -> (r: Self)
        ensures
            r@ == (RetryModel {
                backoff: match self@.backoff {
                    Backoff::Exponential { base: _, max } => Backoff::Exponential { base: d, max },
                    Backoff::Fixed(_) => Backoff::Fixed(d),
                },
                ..self@
            }),
    {
        let backoff = match self.backoff {
            Backoff::Exponential { base: _, max } => Backoff::Exponential { base: d, max },
            Backoff::Fixed(_) => Backoff::Fixed(d),
        };
        Retry { backoff, ..self }
    }

    /// Set the cap of an exponential schedule. A fixed one has none.
    pub fn max_delay(self, d: Duration) -> (r: Self)
        ensures
            r@ == (RetryModel {
                backoff: match self@.backoff {
                    Backoff::Exponential { base, max: _ } => Backoff::Exponential { base, max: d },
                    Backoff::Fixed(delay) => Backoff::Fixed(delay),
                },
                ..self@
            }),
    {
        let backoff = match self.backoff {
            Backoff::Exponential { base, max: _ } => Backoff::Exponential { base, max: d },
            Backoff::Fixed(delay) => Backoff::Fixed(delay),
        };
        Retry { backoff, ..self }
    }

    pub fn jitter(self, j: Jitter) -> (r: Self)
        ensures
            r@ == (RetryModel { jitter: j, ..self@ }),
    {
        Retry { jitter: j, ..self }
    }

    /// Bound the retries of all calls together.
    pub fn budget(self, budget: RetryBudget) -> (r: Self)
        ensures
            r@ == (RetryModel { budget: Some(budget), ..self@ }),
    {
        Retry { budget: Some(budget), ..self }
    }

    /// Retry the errors on which `pred` holds, and no success.
    pub fn when<F: Fn(&E) -> bool + Send + Sync + 'static>(self, pred: F) -> (r: Self)
        requires
            forall|e: E| call_requires(pred, (&e,)),
        ensures
            r@ == (RetryModel {
                decides: |o: Result<T, E>, d: RetryDecision|
                    match o {
                        Ok(_) => d == RetryDecision::Stop,
                        Err(e) => call_ensures(pred, (&e,), d == RetryDecision::Retry),
                    },
                ..self@
            }),
    {
        let r = Retry { classifier: Classifier::WhenErr(ErrorPredicate::new(pred)), ..self };
        assert(r@.decides =~= |o: Result<T, E>, d: RetryDecision|
            match o {
                Ok(_) => d == RetryDecision::Stop,
                Err(e) => call_ensures(pred, (&e,), d == RetryDecision::Retry),
            });
        r
    }

    /// Decide every outcome by `f`.
    pub fn when_outcome<F: Fn(&Result<T, E>) -> RetryDecision + Send + Sync + 'static>(
        self,
        f: F,
    ) -> (r: Self)
        requires
            forall|o: Result<T, E>| call_requires(f, (&o,)),
        ensures
            r@ == (RetryModel {
                decides: |o: Result<T, E>, d: RetryDecision| call_ensures(f, (&o,), d),
                ..self@
            }),
    {
        let r = Retry { classifier: Classifier::WhenOutcome(OutcomeClassifier::new(f)), ..self };
        assert(r@.decides =~= |o: Result<T, E>, d: RetryDecision| call_ensures(f, (&o,), d));
        r
    }

    /// Take a delay hint out of an error, such as a server's `Retry-After`. The next
    /// delay is at least as long as the hint: jitter and cap apply to the backoff
    /// only, before the hint does.
    pub fn retry_after<F: Fn(&E) -> Option<Duration> + Send + Sync + 'static>(
        self,
        f: F,
    ) -> (r: Self)
        requires
            forall|e: E| call_requires(f, (&e,)),
        ensures
            r@ == (RetryModel {
                hints: |e: E, hint: Option<Duration>| call_ensures(f, (&e,), hint),
                ..self@
            }),
    {
        let r = Retry { retry_after: Some(RetryAfterExtractor::new(f)), ..self };
        assert(r@.hints =~= |e: E, hint: Option<Duration>| call_ensures(f, (&e,), hint));
        r
    }

    pub fn max_attempts_value(&self) -> (n: u32)
        ensures
            n == self@.max_attempts,
    {
        self.max_attempts
    }

    pub fn max_elapsed_value(&self) -> (d: Option<Duration>)
        ensures
            d == self@.max_elapsed,
    {
        self.max_elapsed
    }

    pub fn decide(&self, outcome: &Result<T, E>) -> (d: RetryDecision)
        ensures
            (self@.decides)(*outcome, d),
    {
        self.classifier.decide(outcome)
    }

    /// The hint in `err`, if one is found there.
    pub fn retry_after_hint(&self, err: &E) -> (hint: Option<Duration>)
        ensures
            (self@.hints)(*err, hint),
    {
        match &self.retry_after {
            Some(f) => f.extract(err),
            None => None,
        }
    }

    /// The delay after `attempt`, where `draw` is the random number for the jitter
    /// and `hint` what was found in the last error.
    pub fn delay_for(&self, attempt: u32, draw: u64, hint: Option<Duration>) -> (d: Duration)
        ensures
            d.nanos == floored(self@.jittered(attempt, draw), hint),
    {
        let jittered = self.jitter.apply(self.backoff.raw_delay(attempt), draw);
        match hint {
            Some(h) => if h.nanos > jittered.nanos {
                h
            } else {
                jittered
            },
            None => jittered,
        }
    }

    /// The delay after `attempt`, on a random number from `core`.
    pub fn delay<C: Core>(&self, attempt: u32, core: &mut C, last_err: Option<&E>) -> (d: Duration)
        ensures
            exists|draw: u64|
                {
                    &&& #[trigger] old(core).drew(*final(core), draw)
                    &&& self@.delays(attempt, draw, referent(last_err), d)
                },
    {
        let draw: u64 = core.next_u64();
        let hint = match last_err {
            Some(e) => self.retry_after_hint(e),
            None => None,
        };
        let d = self.delay_for(attempt, draw, hint);
        assert(self@.hinted(referent(last_err), hint));
        assert(self@.delays(attempt, draw, referent(last_err), d));
        d
    }

    pub fn budget_ref(&self) -> (b: Option<&RetryBudget>)
        ensures
            b == (match self@.budget {
                Some(b) => Some(&b),
                None => None,
            }),
    {
        match &self.budget {
            Some(b) => Some(b),
            None => None,
        }
    }

    /// The policy without its budget, and the budget, for a caller that shares it.
    pub fn take_budget(self) -> (r: (Self, Option<RetryBudget>))
        ensures
            r.0@ == (RetryModel { budget: None, ..self@ }),
            r.1 == self@.budget,
    {
        let budget = self.budget;
        (Retry { budget: None, ..self }, budget)
    }
}

/// What the ready-made policies do: none makes a single attempt; a fixed one makes three and
/// always waits as long; an exponential one makes three, waits a tenth of a second first, and
/// never more than ten seconds.
pub proof fn law_ready_made_policies<T, E>(
    delay: Duration,
    none: Retry<T, E>,
    fixed: Retry<T, E>,
    exponential: Retry<T, E>,
    standard: Retry<T, E>,
    attempt: u32,
    draw: u64,
    d: Duration,
)
    requires
        call_ensures(Retry::<T, E>::none, (), none),
        call_ensures(Retry::<T, E>::fixed, (delay,), fixed),
        call_ensures(Retry::<T, E>::exponential, (), exponential),
        call_ensures(Retry::<T, E>::standard, (), standard),
        attempt >= 1,
    ensures
        none@.max_attempts == 1,
        fixed@.max_attempts == 3,
        fixed@.delays(attempt, draw, None, d) ==> d == delay,
        exponential@.max_attempts == 3,
        exponential@.delays(attempt, draw, None, d) ==> d.nanos <= 10_000_000_000,
        exponential@.delays(1, draw, None, d) ==> d.nanos == 100_000_000,
        standard@.max_attempts == 4,
        standard@.jitter == Jitter::Full,
        standard@.delays(attempt, draw, None, d) ==> d.nanos <= 2_000_000_000,
{
    vstd::arithmetic::power2::lemma2_to64();
    if exponential@.delays(1, draw, None, d) {
        assert(exponential@.backoff.schedule(1) == 100_000_000);
        exponential@.law_no_hint_no_floor(1, draw, d);
    }
    if exponential@.delays(attempt, draw, None, d) {
        exponential@.law_no_hint_no_floor(attempt, draw, d);
    }
    if standard@.delays(attempt, draw, None, d) {
        standard@.law_no_hint_no_floor(attempt, draw, d);
    }
}

/// What is set of a policy stays set, and setting one thing leaves the others alone, in
/// whichever order they are set.
pub proof fn law_policies_keep_what_is_set<T, E>(
    retry: Retry<T, E>,
    n: u32,
    d: Duration,
    jitter: Jitter,
    budget: RetryBudget,
    a: Retry<T, E>,
    b: Retry<T, E>,
    c: Retry<T, E>,
    all: Retry<T, E>,
)
    requires
        call_ensures(Retry::<T, E>::max_attempts, (retry, n), a),
        call_ensures(Retry::<T, E>::max_elapsed, (a, d), b),
        call_ensures(Retry::<T, E>::jitter, (b, jitter), c),
        call_ensures(Retry::<T, E>::budget, (c, budget), all),
    ensures
        all@.max_attempts == n,
        all@.max_elapsed == Some(d),
        all@.jitter == jitter,
        all@.budget == Some(budget),
        all@.backoff == retry@.backoff,
        all@.decides == retry@.decides,
        all@.hints == retry@.hints,
{
}

/// The first delay and the cap of an exponential schedule are set apart from each other; a
/// fixed schedule has only its delay.
pub proof fn law_schedules_keep_what_is_set<T, E>(
    retry: Retry<T, E>,
    first: Duration,
    most: Duration,
    based: Retry<T, E>,
    capped: Retry<T, E>,
)
    requires
        call_ensures(Retry::<T, E>::base_delay, (retry, first), based),
        call_ensures(Retry::<T, E>::max_delay, (based, most), capped),
    ensures
        retry@.backoff is Exponential ==> capped@.backoff == (Backoff::Exponential {
            base: first,
            max: most,
        }),
        retry@.backoff is Exponential ==> based@.backoff->max == retry@.backoff->max,
        retry@.backoff is Fixed ==> capped@.backoff == Backoff::Fixed(first),
        capped@.max_attempts == retry@.max_attempts,
        capped@.jitter == retry@.jitter,
        capped@.decides == retry@.decides,
{
}

/// A policy that is told which errors to retry retries those, and no value; one that is told
/// how to judge every outcome goes by that alone; and hints are those that are found as it
/// was told.
pub proof fn law_policies_judge_as_they_are_told<
    T,
    E,
    P: Fn(&E) -> bool + Send + Sync + 'static,
    F: Fn(&Result<T, E>) -> RetryDecision + Send + Sync + 'static,
    G: Fn(&E) -> Option<Duration> + Send + Sync + 'static,
>(
    retry: Retry<T, E>,
    pred: P,
    judge: F,
    find: G,
    picky: Retry<T, E>,
    judging: Retry<T, E>,
    hinted: Retry<T, E>,
    value: T,
    error: E,
    outcome: Result<T, E>,
    decision: RetryDecision,
    hint: Option<Duration>,
)
    requires
        call_ensures(Retry::<T, E>::when::<P>, (retry, pred), picky),
        call_ensures(Retry::<T, E>::when_outcome::<F>, (retry, judge), judging),
        call_ensures(Retry::<T, E>::retry_after::<G>, (retry, find), hinted),
    ensures
        (picky@.decides)(Ok(value), decision) ==> decision == RetryDecision::Stop,
        (picky@.decides)(Err(error), decision) == call_ensures(
            pred,
            (&error,),
            decision == RetryDecision::Retry,
        ),
        (judging@.decides)(outcome, decision) == call_ensures(judge, (&outcome,), decision),
        (hinted@.hints)(error, hint) == call_ensures(find, (&error,), hint),
        picky@.hints == retry@.hints,
        hinted@.decides == retry@.decides,
{
}

} // verus!
