//! The course of a call, as a machine of stages.
//!
//! A call passes the concurrency limit and the breaker, then runs attempt after
//! attempt until one settles it:
//!
//! ```text
//! Arrival -> Ready -> Running -> Failed -> Due -> Resting -> Ready -> ...
//! ```
//!
//! Each stage is a value of a type of its own, and each step consumes the stage it
//! leaves, so steps cannot be taken out of order. What the machine cannot do itself
//! (run the operation, wait, read the clock, draw a random number) happens between
//! the steps, and its result is an argument of the next one.

pub mod laws;


use vstd::prelude::*;

use crate::attempt::Attempt;
use crate::breaker::{BreakerModel, BreakerRuntime};
use crate::classify::{ErrorPredicate, RetryDecision};
use crate::error::{BreakerState, ErrorContext, ExecutionError};
use crate::event::{emit, Event, EventHook};
use crate::retry::budget::Bucket;
use crate::retry::{Retry, RetryBudget};
use crate::time::{Duration, Instant};

verus! {

/// How an attempt ended.
#[derive(Debug)]
pub enum AttemptOutcome<T, E> {
    /// The operation returned.
    Completed(Result<T, E>),
    /// The attempt's own time ran out.
    AttemptTimeout,
    /// The time of the whole call ran out.
    TotalTimeout,
}

/// Settle the race of an attempt: the operation's result counts even where time is up
/// as well, and the attempt's own time before that of the call.
pub fn race_attempt<T, E>(
    result: Option<Result<T, E>>,
    attempt_elapsed: bool,
    total_elapsed: bool,
) -> (o: Option<AttemptOutcome<T, E>>)
    ensures
        o == (match result {
            Some(r) => Some(AttemptOutcome::Completed(r)),
            None => if attempt_elapsed {
                Some(AttemptOutcome::AttemptTimeout)
            } else if total_elapsed {
                Some(AttemptOutcome::TotalTimeout)
            } else {
                None
            },
        }),
{
    match result {
        Some(r) => Some(AttemptOutcome::Completed(r)),
        None => if attempt_elapsed {
            Some(AttemptOutcome::AttemptTimeout)
        } else if total_elapsed {
            Some(AttemptOutcome::TotalTimeout)
        } else {
            None
        },
    }
}

/// What is known of a call that has passed the gates.
pub struct Call<E> {
    /// When the call arrived.
    pub start: Instant,
    /// When its time is up.
    pub deadline: Option<Instant>,
    /// When its first attempt began.
    pub began: Option<Instant>,
    /// The number of the current attempt, from one.
    pub attempt: u32,
    /// The delay that was last due.
    pub last_delay: Option<Duration>,
    /// The error that was last retried.
    pub last_error: Option<E>,
}

/// How an attempt leaves its call.
#[verifier::reject_recursive_types(T)]
#[verifier::reject_recursive_types(E)]
pub ghost enum Settlement<T, E> {
    Done(Result<T, ExecutionError<E>>),
    Retry(Call<E>),
}

/// How a due retry leaves its call.
#[verifier::reject_recursive_types(E)]
pub ghost enum Rest<E> {
    Done(ExecutionError<E>),
    Sleep(Duration, Call<E>),
}

impl<E> Call<E> {
    /// The context of a failure at `now`, where the breaker stands as `state` tells.
    pub open spec fn context_at(self, now: Instant, state: BreakerState) -> Box<ErrorContext> {
        Box::new(
            ErrorContext {
                attempts: self.attempt,
                elapsed: now.spec_since(self.start),
                last_delay: self.last_delay,
                breaker_state: state,
            },
        )
    }

    /// When the first attempt began, if the current one begins at `now`.
    pub open spec fn first_began(self, now: Instant) -> Instant {
        match self.began {
            Some(t) => t,
            None => now,
        }
    }

    /// The call once its current attempt has begun at `now`.
    pub open spec fn begun(self, now: Instant) -> Call<E> {
        Call { began: Some(self.first_began(now)), ..self }
    }

    /// The call before its current attempt.
    pub open spec fn unmade(self) -> Call<E> {
        Call { attempt: (self.attempt - 1) as u32, ..self }
    }

    /// As far as the outcome and the attempt cap go, another attempt is due.
    pub open spec fn goes_on<T>(
        self,
        outcome: AttemptOutcome<T, E>,
        decision: RetryDecision,
        max_attempts: u32,
    ) -> bool {
        &&& self.attempt < max_attempts
        &&& match outcome {
            AttemptOutcome::Completed(_) => decision == RetryDecision::Retry,
            AttemptOutcome::AttemptTimeout => true,
            AttemptOutcome::TotalTimeout => false,
        }
    }

    /// The error that was last retried, once this outcome is too.
    pub open spec fn last_error_after<T>(self, outcome: AttemptOutcome<T, E>) -> Option<E> {
        match outcome {
            AttemptOutcome::Completed(Err(e)) => Some(e),
            _ => self.last_error,
        }
    }

    /// No retry starts so long after the call arrived.
    pub open spec fn over_elapsed(self, max_elapsed: Option<Duration>, now: Instant) -> bool {
        max_elapsed matches Some(max) && now.spec_since(self.start).nanos >= max.nanos
    }

    /// What the call returns if the outcome at `now` is its last.
    pub open spec fn result_of<T>(
        self,
        outcome: AttemptOutcome<T, E>,
        now: Instant,
        state: BreakerState,
    ) -> Result<T, ExecutionError<E>> {
        let context = self.context_at(now, state);
        match outcome {
            AttemptOutcome::Completed(Ok(v)) => Ok(v),
            AttemptOutcome::Completed(Err(source)) => Err(
                ExecutionError::Operation { source, context },
            ),
            AttemptOutcome::AttemptTimeout => Err(ExecutionError::AttemptTimeout { context }),
            AttemptOutcome::TotalTimeout => Err(ExecutionError::TotalTimeout { context }),
        }
    }

    /// How the outcome at `now` leaves the call, where the breaker stands as `state`
    /// tells.
    pub open spec fn settlement<T>(
        self,
        max_attempts: u32,
        max_elapsed: Option<Duration>,
        outcome: AttemptOutcome<T, E>,
        decision: RetryDecision,
        now: Instant,
        state: BreakerState,
    ) -> Settlement<T, E> {
        let last_error = self.last_error_after(outcome);
        let context = self.context_at(now, state);
        if !self.goes_on(outcome, decision, max_attempts) {
            Settlement::Done(self.result_of(outcome, now, state))
        } else if self.over_elapsed(max_elapsed, now) {
            Settlement::Done(
                Err(
                    match last_error {
                        Some(source) => ExecutionError::Operation { source, context },
                        None => ExecutionError::AttemptTimeout { context },
                    },
                ),
            )
        } else {
            Settlement::Retry(Call { last_error, ..self })
        }
    }

    /// What an observer is told of the outcome: first how the attempt failed, if it did,
    /// then that the call succeeded, or that it was given up where no retry was left. An
    /// error that is not to be retried is not given up on.
    pub open spec fn settlement_events<T>(
        self,
        max_attempts: u32,
        max_elapsed: Option<Duration>,
        outcome: AttemptOutcome<T, E>,
        decision: RetryDecision,
        now: Instant,
    ) -> Seq<Event> {
        let failure = match outcome {
            AttemptOutcome::AttemptTimeout => seq![
                Event::AttemptTimedOut { attempt: self.attempt },
            ],
            AttemptOutcome::Completed(Err(_)) => seq![
                Event::AttemptFailed { attempt: self.attempt },
            ],
            _ => seq![],
        };
        let gave_up = seq![Event::GaveUp { attempts: self.attempt }];
        let end = if !self.goes_on(outcome, decision, max_attempts) {
            match outcome {
                AttemptOutcome::Completed(Ok(_)) => seq![
                    Event::Succeeded { attempts: self.attempt },
                ],
                AttemptOutcome::Completed(Err(_)) => if decision == RetryDecision::Stop {
                    seq![]
                } else {
                    gave_up
                },
                _ => gave_up,
            }
        } else if self.over_elapsed(max_elapsed, now) {
            gave_up
        } else {
            seq![]
        };
        failure + end
    }

    /// Honouring `hint` would take longer than the call has left at `at`.
    pub open spec fn overshoots(self, hint: Option<Duration>, at: Instant) -> bool {
        match (self.deadline, hint) {
            (Some(deadline), Some(h)) => h.nanos > deadline.spec_since(at).nanos,
            _ => false,
        }
    }

    /// The delay `raw`, cut off at the deadline as the clock reads `again`.
    pub open spec fn cut_off(self, raw: Duration, again: Instant) -> Duration {
        match self.deadline {
            Some(deadline) => raw.spec_min(deadline.spec_since(again)),
            None => raw,
        }
    }

    /// How a retry that is due after `raw` leaves the call, where `hint` is what the
    /// last error asks for, and the breaker stands as `state` tells. A delay is cut off
    /// at the deadline, but a hint is not: the call ends where it cannot be honoured.
    pub open spec fn rest(
        self,
        raw: Duration,
        hint: Option<Duration>,
        at: Instant,
        again: Instant,
        state: BreakerState,
    ) -> Rest<E> {
        let call = Call { last_delay: Some(raw), ..self };
        if self.overshoots(hint, at) {
            Rest::Done(ExecutionError::TotalTimeout { context: call.context_at(again, state) })
        } else {
            Rest::Sleep(self.cut_off(raw, again), call)
        }
    }

    pub open spec fn rest_events(
        self,
        raw: Duration,
        hint: Option<Duration>,
        at: Instant,
        again: Instant,
    ) -> Seq<Event> {
        if self.overshoots(hint, at) {
            seq![Event::GaveUp { attempts: self.attempt }]
        } else {
            seq![
                Event::RetryScheduled { attempt: self.attempt, delay: self.cut_off(raw, again) },
            ]
        }
    }

    fn context(&self, now: Instant, state: BreakerState) -> (c: Box<ErrorContext>)
        ensures
            c == self.context_at(now, state),
    {
        Box::new(
            ErrorContext {
                attempts: self.attempt,
                elapsed: now.duration_since(self.start),
                last_delay: self.last_delay,
                breaker_state: state,
            },
        )
    }
}

/// A breaker, if there is one, as its model.
pub open spec fn model_of(breaker: Option<&BreakerRuntime>) -> Option<BreakerModel> {
    match breaker {
        Some(b) => Some(b@),
        None => None,
    }
}

/// The state of a breaker at `now`, or that there is none.
pub open spec fn state_of(breaker: Option<BreakerModel>, now: Instant) -> BreakerState {
    match breaker {
        Some(b) => b.state_at(now),
        None => BreakerState::Disabled,
    }
}

fn state_at(breaker: Option<&BreakerRuntime>, now: Instant) -> (state: BreakerState)
    ensures
        state == state_of(model_of(breaker), now),
{
    match breaker {
        Some(b) => b.state_at(now),
        None => BreakerState::Disabled,
    }
}

/// Emit an event, and keep it in `log` if it was sent.
fn note<M: FnOnce() -> Event>(hook: &Option<EventHook>, log: &mut Vec<Event>, make: M)
    requires
        call_requires(make, ()),
    ensures
        hook is None ==> final(log)@ == old(log)@,
        hook is Some ==> exists|event: Event|
            {
                &&& call_ensures(make, (), event)
                &&& hook->0.observed(event)
                &&& final(log)@ == old(log)@.push(event)
            },
{
    if let Some(event) = emit(hook, make) {
        log.push(event);
    }
}

/// An attempt is under way.
pub struct Running<E> {
    call: Call<E>,
}

/// An attempt has failed, and a retry is not ruled out yet.
pub struct Failed<E> {
    call: Call<E>,
    at: Instant,
}

impl<E> Failed<E> {
    #[verifier::type_invariant]
    spec fn has_successor(self) -> bool {
        1 <= self.call.attempt < u32::MAX
    }

    pub closed spec fn call(&self) -> Call<E> {
        self.call
    }

    /// When the attempt had ended.
    pub closed spec fn spec_at(&self) -> Instant {
        self.at
    }
}

/// How an attempt leaves its call.
pub enum Settled<T, E> {
    Done(Result<T, ExecutionError<E>>),
    Retry(Failed<E>),
}

impl<T, E> Settled<T, E> {
    pub open spec fn spec_settlement(self) -> Settlement<T, E> {
        match self {
            Settled::Done(r) => Settlement::Done(r),
            Settled::Retry(f) => Settlement::Retry(f.call()),
        }
    }
}

impl<E> Running<E> {
    #[verifier::type_invariant]
    spec fn counted(self) -> bool {
        self.call.attempt >= 1
    }

    pub closed spec fn call(&self) -> Call<E> {
        self.call
    }

    /// The attempt ended as `outcome` says, `decision` was taken on the result if the
    /// operation returned one, and then the clock read `now`.
    pub fn settle_decided<T>(
        self,
        max_attempts: u32,
        max_elapsed: Option<Duration>,
        breaker: Option<&BreakerRuntime>,
        hook: &Option<EventHook>,
        outcome: AttemptOutcome<T, E>,
        decision: RetryDecision,
        now: Instant,
    ) -> (r: (Settled<T, E>, Vec<Event>))
        ensures
            r.0.spec_settlement() == self.call().settlement(
                max_attempts,
                max_elapsed,
                outcome,
                decision,
                now,
                state_of(model_of(breaker), now),
            ),
            r.0 matches Settled::Retry(f) ==> f.spec_at() == now,
            crate::event::delivered(*hook, r.1@),
            r.1@ == crate::event::told(
                *hook,
                self.call().settlement_events(max_attempts, max_elapsed, outcome, decision, now),
            ),
    {
        proof {
            use_type_invariant(&self);
        }
        let state = state_at(breaker, now);
        let mut call = self.call;
        let attempt: u32 = call.attempt;
        let mut log: Vec<Event> = Vec::new();
        let ghost expected = call.settlement_events(
            max_attempts,
            max_elapsed,
            outcome,
            decision,
            now,
        );
        match outcome {
            AttemptOutcome::TotalTimeout => {
                note(
                    hook,
                    &mut log,
                    || -> (e: Event)
                        ensures e == (Event::GaveUp { attempts: attempt })
                    { Event::GaveUp { attempts: attempt } },
                );
                assert(hook is Some ==> log@ =~= expected);
                return (
                    Settled::Done(Err(ExecutionError::TotalTimeout { context: call.context(now, state) })),
                    log,
                );
            },
            AttemptOutcome::Completed(result) => {
                if result.is_err() {
                    note(
                        hook,
                        &mut log,
                        || -> (e: Event)
                            ensures e == (Event::AttemptFailed { attempt })
                        { Event::AttemptFailed { attempt } },
                    );
                }
                if decision == RetryDecision::Stop || attempt >= max_attempts {
                    match result {
                        Ok(v) => {
                            note(
                                hook,
                                &mut log,
                                || -> (e: Event)
                                    ensures e == (Event::Succeeded { attempts: attempt })
                                { Event::Succeeded { attempts: attempt } },
                            );
                            assert(hook is Some ==> log@ =~= expected);
                            return (Settled::Done(Ok(v)), log);
                        },
                        Err(source) => {
                            if decision != RetryDecision::Stop {
                                note(
                                    hook,
                                    &mut log,
                                    || -> (e: Event)
                                        ensures e == (Event::GaveUp { attempts: attempt })
                                    { Event::GaveUp { attempts: attempt } },
                                );
                            }
                            assert(hook is Some ==> log@ =~= expected);
                            return (
                                Settled::Done(
                                    Err(
                                        ExecutionError::Operation {
                                            source,
                                            context: call.context(now, state),
                                        },
                                    ),
                                ),
                                log,
                            );
                        },
                    }
                }
                if let Err(e) = result {
                    call = Call { last_error: Some(e), ..call };
                }
            },
            AttemptOutcome::AttemptTimeout => {
                note(
                    hook,
                    &mut log,
                    || -> (e: Event)
                        ensures e == (Event::AttemptTimedOut { attempt })
                    { Event::AttemptTimedOut { attempt } },
                );
                if attempt >= max_attempts {
                    note(
                        hook,
                        &mut log,
                        || -> (e: Event)
                            ensures e == (Event::GaveUp { attempts: attempt })
                        { Event::GaveUp { attempts: attempt } },
                    );
                    assert(hook is Some ==> log@ =~= expected);
                    return (
                        Settled::Done(
                            Err(ExecutionError::AttemptTimeout { context: call.context(now, state) }),
                        ),
                        log,
                    );
                }
            },
        }
        if let Some(max) = max_elapsed {
            if now.duration_since(call.start).nanos >= max.nanos {
                note(
                    hook,
                    &mut log,
                    || -> (e: Event)
                        ensures e == (Event::GaveUp { attempts: attempt })
                    { Event::GaveUp { attempts: attempt } },
                );
                assert(hook is Some ==> log@ =~= expected);
                let context = call.context(now, state);
                return (
                    Settled::Done(
                        Err(
                            match call.last_error {
                                Some(source) => ExecutionError::Operation { source, context },
                                None => ExecutionError::AttemptTimeout { context },
                            },
                        ),
                    ),
                    log,
                );
            }
        }
        assert(hook is Some ==> log@ =~= expected);
        (Settled::Retry(Failed { call, at: now }), log)
    }
}

/// What the classifier may say of an attempt: a decision on the operation's result, and
/// nothing where there is none.
pub open spec fn classified<T, E>(
    retry: Retry<T, E>,
    outcome: AttemptOutcome<T, E>,
    decision: RetryDecision,
) -> bool {
    outcome matches AttemptOutcome::Completed(result) ==> (retry@.decides)(result, decision)
}

impl<E> Running<E> {
    /// The attempt ended as `outcome` says, and then the clock read `now`.
    pub fn settle<T>(
        self,
        retry: &Retry<T, E>,
        breaker: Option<&BreakerRuntime>,
        hook: &Option<EventHook>,
        outcome: AttemptOutcome<T, E>,
        now: Instant,
    ) -> (r: (Settled<T, E>, Vec<Event>))
        ensures
            exists|decision: RetryDecision|
                {
                    &&& #[trigger] classified(*retry, outcome, decision)
                    &&& r.0.spec_settlement() == self.call().settlement(
                        retry@.max_attempts,
                        retry@.max_elapsed,
                        outcome,
                        decision,
                        now,
                        state_of(model_of(breaker), now),
                    )
                    &&& crate::event::delivered(*hook, r.1@)
                    &&& r.1@ == crate::event::told(
                        *hook,
                        self.call().settlement_events(
                            retry@.max_attempts,
                            retry@.max_elapsed,
                            outcome,
                            decision,
                            now,
                        ),
                    )
                },
            r.0 matches Settled::Retry(f) ==> f.spec_at() == now,
    {
        let decision = match &outcome {
            AttemptOutcome::Completed(result) => retry.decide(result),
            _ => RetryDecision::Stop,
        };
        assert(classified(*retry, outcome, decision));
        self.settle_decided(
            retry.max_attempts_value(),
            retry.max_elapsed_value(),
            breaker,
            hook,
            outcome,
            decision,
            now,
        )
    }

    /// The concurrency limit turned the attempt away, and then the clock read `now`. The
    /// attempt was not made, so it is not counted.
    pub fn reject(
        self,
        breaker: Option<&BreakerRuntime>,
        hook: &Option<EventHook>,
        now: Instant,
    ) -> (r: (ExecutionError<E>, Vec<Event>))
        ensures
            self.call().attempt >= 1,
            r.0 == (ExecutionError::ConcurrencyRejected::<E> {
                context: self.call().unmade().context_at(
                    now,
                    state_of(model_of(breaker), now),
                ),
            }),
            crate::event::delivered(*hook, r.1@),
            r.1@ == crate::event::told(*hook, seq![Event::ConcurrencyRejected]),
    {
        proof {
            use_type_invariant(&self);
        }
        let mut log: Vec<Event> = Vec::new();
        note(
            hook,
            &mut log,
            || -> (e: Event) ensures e == Event::ConcurrencyRejected { Event::ConcurrencyRejected },
        );
        assert(hook is Some ==> log@ =~= seq![Event::ConcurrencyRejected]);
        let made: u32 = self.call.attempt - 1;
        let call = Call { attempt: made, ..self.call };
        let context = call.context(now, state_at(breaker, now));
        (ExecutionError::ConcurrencyRejected { context }, log)
    }
}

/// A retry has been paid for, if it has to be.
pub struct Due<E> {
    call: Call<E>,
}

impl<E> Due<E> {
    #[verifier::type_invariant]
    spec fn has_successor(self) -> bool {
        1 <= self.call.attempt < u32::MAX
    }

    pub closed spec fn call(&self) -> Call<E> {
        self.call
    }
}

/// A retry is paid for out of a budget that stood at `before`, and then stands at `after`, or
/// the call ends. A retry without a budget costs nothing.
pub open spec fn charged<E>(
    before: Option<Bucket>,
    after: Option<Bucket>,
    r: Result<Call<E>, ExecutionError<E>>,
) -> bool {
    match before {
        Some(b) => {
            &&& after == Some(b.after_withdrawal())
            &&& r is Ok == b.grants()
            &&& r is Err ==> r->Err_0 is RetryBudgetExhausted
        },
        None => after is None && r is Ok,
    }
}

impl<E> Failed<E> {
    /// Pay for the retry out of the budget, if there is one. Where the budget is
    /// exhausted the call ends.
    pub fn charge(
        self,
        budget: Option<&mut RetryBudget>,
        breaker: Option<&BreakerRuntime>,
        hook: &Option<EventHook>,
    ) -> (r: (Result<Due<E>, ExecutionError<E>>, Vec<Event>))
        ensures
            budget matches Some(b) ==> final(b)@ == b@.after_withdrawal(),
            charged(
                match budget {
                    Some(b) => Some(b@),
                    None => None,
                },
                match budget {
                    Some(b) => Some(final(b)@),
                    None => None,
                },
                match r.0 {
                    Ok(due) => Ok(due.call()),
                    Err(e) => Err(e),
                },
            ),
            match (r.0, budget) {
                (Ok(due), Some(b)) => b@.grants() && due.call() == self.call(),
                (Ok(due), None) => due.call() == self.call(),
                (Err(e), Some(b)) => !b@.grants() && e == (ExecutionError::RetryBudgetExhausted::<
                    E,
                > {
                    context: self.call().context_at(
                        self.spec_at(),
                        state_of(model_of(breaker), self.spec_at()),
                    ),
                }),
                (Err(_), None) => false,
            },
            crate::event::delivered(*hook, r.1@),
            r.1@ == crate::event::told(
                *hook,
                if r.0 is Ok {
                    seq![]
                } else {
                    seq![Event::RetryBudgetExhausted { attempts: self.call().attempt }]
                },
            ),
    {
        proof {
            use_type_invariant(&self);
        }
        let mut log: Vec<Event> = Vec::new();
        let granted = match budget {
            Some(b) => b.try_withdraw(),
            None => true,
        };
        if granted {
            assert(log@ =~= Seq::empty());
            return (Ok(Due { call: self.call }), log);
        }
        let attempts: u32 = self.call.attempt;
        note(
            hook,
            &mut log,
            || -> (e: Event)
                ensures e == (Event::RetryBudgetExhausted { attempts })
            { Event::RetryBudgetExhausted { attempts } },
        );
        assert(hook is Some ==> log@ =~= seq![Event::RetryBudgetExhausted { attempts }]);
        let context = self.call.context(self.at, state_at(breaker, self.at));
        (Err(ExecutionError::RetryBudgetExhausted { context }), log)
    }
}

/// The call waits for its next attempt.
pub struct Resting<E> {
    call: Call<E>,
}

impl<E> Resting<E> {
    #[verifier::type_invariant]
    spec fn has_successor(self) -> bool {
        1 <= self.call.attempt < u32::MAX
    }

    pub closed spec fn call(&self) -> Call<E> {
        self.call
    }
}

/// How a due retry leaves its call.
pub enum Scheduled<E> {
    Done(ExecutionError<E>),
    /// Wait so long, then resume.
    Sleep(Duration, Resting<E>),
}

impl<E> Scheduled<E> {
    pub open spec fn spec_rest(self) -> Rest<E> {
        match self {
            Scheduled::Done(e) => Rest::Done(e),
            Scheduled::Sleep(d, r) => Rest::Sleep(d, r.call()),
        }
    }
}

impl<E> Due<E> {
    /// The retry is due after `raw`, and `hint` is what the last error asks for; then
    /// the clock read `at`, and after that `again`.
    pub fn schedule_after(
        self,
        breaker: Option<&BreakerRuntime>,
        hook: &Option<EventHook>,
        raw: Duration,
        hint: Option<Duration>,
        at: Instant,
        again: Instant,
    ) -> (r: (Scheduled<E>, Vec<Event>))
        ensures
            r.0.spec_rest() == self.call().rest(
                raw,
                hint,
                at,
                again,
                state_of(model_of(breaker), again),
            ),
            crate::event::delivered(*hook, r.1@),
            r.1@ == crate::event::told(*hook, self.call().rest_events(raw, hint, at, again)),
    {
        proof {
            use_type_invariant(&self);
        }
        let ghost expected = self.call.rest_events(raw, hint, at, again);
        let call = Call { last_delay: Some(raw), ..self.call };
        let attempt: u32 = call.attempt;
        let mut log: Vec<Event> = Vec::new();
        let overshoots = match (call.deadline, hint) {
            (Some(deadline), Some(h)) => h.nanos > deadline.duration_since(at).nanos,
            _ => false,
        };
        if overshoots {
            note(
                hook,
                &mut log,
                || -> (e: Event)
                    ensures e == (Event::GaveUp { attempts: attempt })
                { Event::GaveUp { attempts: attempt } },
            );
            assert(hook is Some ==> log@ =~= expected);
            let context = call.context(again, state_at(breaker, again));
            return (Scheduled::Done(ExecutionError::TotalTimeout { context }), log);
        }
        let delay = match call.deadline {
            Some(deadline) => raw.min(deadline.duration_since(again)),
            None => raw,
        };
        note(
            hook,
            &mut log,
            || -> (e: Event)
                ensures e == (Event::RetryScheduled { attempt, delay })
            { Event::RetryScheduled { attempt, delay } },
        );
        assert(hook is Some ==> log@ =~= expected);
        (Scheduled::Sleep(delay, Resting { call }), log)
    }

    /// Compute the delay of the retry on random number `draw`; then the clock read
    /// `at`, and after that `again`.
    pub fn schedule<T>(
        self,
        retry: &Retry<T, E>,
        breaker: Option<&BreakerRuntime>,
        hook: &Option<EventHook>,
        draw: u64,
        at: Instant,
        again: Instant,
    ) -> (r: (Scheduled<E>, Vec<Event>))
        ensures
            exists|raw: Duration, hint: Option<Duration>|
                {
                    &&& #[trigger] retry@.delays(
                        self.call().attempt,
                        draw,
                        self.call().last_error,
                        raw,
                    )
                    &&& #[trigger] retry@.hinted(self.call().last_error, hint)
                    &&& r.0.spec_rest() == self.call().rest(
                        raw,
                        hint,
                        at,
                        again,
                        state_of(model_of(breaker), again),
                    )
                    &&& crate::event::delivered(*hook, r.1@)
                    &&& r.1@ == crate::event::told(
                        *hook,
                        self.call().rest_events(raw, hint, at, again),
                    )
                },
    {
        let ghost last_error = self.call.last_error;
        let floor = match &self.call.last_error {
            Some(e) => retry.retry_after_hint(e),
            None => None,
        };
        let raw = retry.delay_for(self.call.attempt, draw, floor);
        assert(retry@.hinted(last_error, floor));
        assert(retry@.delays(self.call.attempt, draw, last_error, raw));
        let hint = match (&self.call.last_error, self.call.deadline) {
            (Some(e), Some(_)) => retry.retry_after_hint(e),
            _ => floor,
        };
        assert(retry@.hinted(last_error, hint));
        self.schedule_after(breaker, hook, raw, hint, at, again)
    }
}

/// An attempt is due.
pub struct Ready<E> {
    call: Call<E>,
}

impl<E> Ready<E> {
    #[verifier::type_invariant]
    spec fn counted(self) -> bool {
        self.call.attempt >= 1
    }

    pub closed spec fn call(&self) -> Call<E> {
        self.call
    }

    /// Begin the attempt at `now`.
    pub fn begin(self, now: Instant) -> (r: (Attempt, Running<E>))
        ensures
            r.0.parts() == (self.call().attempt, self.call().first_began(now), now),
            r.1.call() == self.call().begun(now),
    {
        proof {
            use_type_invariant(&self);
        }
        let began = match self.call.began {
            Some(t) => t,
            None => now,
        };
        let attempt = Attempt::new(self.call.attempt, began, now);
        (attempt, Running { call: Call { began: Some(began), ..self.call } })
    }
}

/// The deadline has come by `at`.
pub open spec fn expired(deadline: Option<Instant>, at: Instant) -> bool {
    deadline matches Some(d) && at.nanos >= d.nanos
}

impl<E> Resting<E> {
    /// The wait is over; then the clock read `at`, and after that `again`. The next
    /// attempt is due unless the time of the call is up.
    pub fn resume(
        self,
        breaker: Option<&BreakerRuntime>,
        hook: &Option<EventHook>,
        at: Instant,
        again: Instant,
    ) -> (r: (Result<Ready<E>, ExecutionError<E>>, Vec<Event>))
        ensures
            match r.0 {
                Ok(ready) => {
                    &&& !expired(self.call().deadline, at)
                    &&& self.call().attempt < u32::MAX
                    &&& ready.call() == (Call {
                        attempt: (self.call().attempt + 1) as u32,
                        ..self.call()
                    })
                },
                Err(e) => {
                    &&& expired(self.call().deadline, at)
                    &&& e == (ExecutionError::TotalTimeout::<E> {
                        context: self.call().context_at(
                            again,
                            state_of(model_of(breaker), again),
                        ),
                    })
                },
            },
            crate::event::delivered(*hook, r.1@),
            r.1@ == crate::event::told(
                *hook,
                if r.0 is Err {
                    seq![Event::GaveUp { attempts: self.call().attempt }]
                } else {
                    seq![]
                },
            ),
    {
        proof {
            use_type_invariant(&self);
        }
        let attempts: u32 = self.call.attempt;
        let mut log: Vec<Event> = Vec::new();
        if let Some(deadline) = self.call.deadline {
            if at.nanos >= deadline.nanos {
                note(
                    hook,
                    &mut log,
                    || -> (e: Event)
                        ensures e == (Event::GaveUp { attempts })
                    { Event::GaveUp { attempts } },
                );
                assert(hook is Some ==> log@ =~= seq![Event::GaveUp { attempts }]);
                let context = self.call.context(again, state_at(breaker, again));
                return (Err(ExecutionError::TotalTimeout { context }), log);
            }
        }
        assert(log@ =~= Seq::empty());
        let attempt: u32 = attempts + 1;
        (Ok(Ready { call: Call { attempt, ..self.call } }), log)
    }
}

/// A call has arrived and has passed no gate yet.
pub struct Arrival {
    start: Instant,
    deadline: Option<Instant>,
}

impl Arrival {
    pub closed spec fn spec_start(&self) -> Instant {
        self.start
    }

    pub closed spec fn spec_deadline(&self) -> Option<Instant> {
        self.deadline
    }

    /// The context of a call that is turned away at `now`.
    pub open spec fn context_at(&self, now: Instant, breaker_state: BreakerState) -> Box<
        ErrorContext,
    > {
        Box::new(
            ErrorContext {
                attempts: 0,
                elapsed: now.spec_since(self.spec_start()),
                last_delay: None,
                breaker_state,
            },
        )
    }

    /// The call may pass a breaker at `now`, or be turned away at `again`, and leaves breaker
    /// and budget so: a call that passes is about to make its first attempt and has made its
    /// deposit, and one that is turned away has made none.
    pub open spec fn passed<E>(
        &self,
        breaker: (Option<BreakerModel>, Option<BreakerModel>),
        budget: (Option<Bucket>, Option<Bucket>),
        now: Instant,
        again: Instant,
        r: Result<Call<E>, ExecutionError<E>>,
    ) -> bool {
        &&& breaker.1 == match breaker.0 {
            Some(b) => Some(b.after_gate(now)),
            None => None,
        }
        &&& budget.1 == match budget.0 {
            Some(b) => Some(
                if r is Ok {
                    b.after_deposit()
                } else {
                    b
                },
            ),
            None => None,
        }
        &&& r is Ok == (breaker.0 matches Some(b) ==> b.admits(now))
        &&& r matches Ok(call) ==> {
            &&& call.start == self.spec_start()
            &&& call.deadline == self.spec_deadline()
            &&& call.began is None
            &&& call.attempt == 1
            &&& call.last_delay is None
            &&& call.last_error is None
        }
        &&& r matches Err(e) ==> {
            &&& e is CircuitOpen
            &&& breaker.0 is Some
            &&& e.spec_context() == *self.context_at(again, breaker.0->0.state_at(now))
        }
    }

    /// A call arrives at `start` and may take `total_timeout`.
    pub fn new(total_timeout: Option<Duration>, start: Instant) -> (a: Arrival)
        ensures
            a.spec_start() == start,
            a.spec_deadline() == (match total_timeout {
                Some(t) => Some(start.spec_after(t)),
                None => None,
            }),
    {
        let deadline = match total_timeout {
            Some(t) => Some(start.saturating_add(t)),
            None => None,
        };
        Arrival { start, deadline }
    }

    /// When the time of the call is up.
    pub fn deadline(&self) -> (d: Option<Instant>)
        ensures
            d == self.spec_deadline(),
    {
        self.deadline
    }

    fn context(&self, now: Instant, breaker_state: BreakerState) -> (c: Box<ErrorContext>)
        ensures
            c == self.context_at(now, breaker_state),
    {
        Box::new(
            ErrorContext {
                attempts: 0,
                elapsed: now.duration_since(self.start),
                last_delay: None,
                breaker_state,
            },
        )
    }

    /// The concurrency limit turned the call away, and then the clock read `now`. The
    /// breaker, if there is one, was not asked.
    pub fn reject<E>(
        self,
        breaker: Option<&BreakerRuntime>,
        hook: &Option<EventHook>,
        now: Instant,
    ) -> (r: (ExecutionError<E>, Vec<Event>))
        ensures
            r.0 == (ExecutionError::ConcurrencyRejected::<E> {
                context: self.context_at(now, state_of(model_of(breaker), now)),
            }),
            crate::event::delivered(*hook, r.1@),
            r.1@ == crate::event::told(*hook, seq![Event::ConcurrencyRejected]),
    {
        let mut log: Vec<Event> = Vec::new();
        note(
            hook,
            &mut log,
            || -> (e: Event) ensures e == Event::ConcurrencyRejected { Event::ConcurrencyRejected },
        );
        assert(hook is Some ==> log@ =~= seq![Event::ConcurrencyRejected]);
        let context = self.context(now, state_at(breaker, now));
        (ExecutionError::ConcurrencyRejected { context }, log)
    }

    /// Pass the breaker, if there is one, when the clock reads `now`; where it turns the
    /// call away the clock then read `again`. A call that passes makes its deposit in
    /// the retry budget, if there is one, and each one that is let through as a probe
    /// is told.
    pub fn pass<E>(
        self,
        breaker: Option<&mut BreakerRuntime>,
        budget: Option<&mut RetryBudget>,
        hook: &Option<EventHook>,
        now: Instant,
        again: Instant,
    ) -> (r: (Result<Ready<E>, ExecutionError<E>>, Vec<Event>))
        ensures
            breaker matches Some(b) ==> final(b)@ == b@.after_gate(now),
            self.passed(
                match breaker {
                    Some(b) => (Some(b@), Some(final(b)@)),
                    None => (None, None),
                },
                match budget {
                    Some(b) => (Some(b@), Some(final(b)@)),
                    None => (None, None),
                },
                now,
                again,
                match r.0 {
                    Ok(ready) => Ok(ready.call()),
                    Err(e) => Err(e),
                },
            ),
            r.0 is Ok == (breaker matches Some(b) ==> b@.admits(now)),
            budget matches Some(b) ==> final(b)@ == if r.0 is Ok {
                b@.after_deposit()
            } else {
                b@
            },
            match r.0 {
                Ok(ready) => ready.call() == (Call::<E> {
                    start: self.spec_start(),
                    deadline: self.spec_deadline(),
                    began: None,
                    attempt: 1,
                    last_delay: None,
                    last_error: None,
                }),
                Err(e) => breaker matches Some(b) && e == (ExecutionError::CircuitOpen::<E> {
                    context: self.context_at(again, b@.state_at(now)),
                }),
            },
            crate::event::delivered(*hook, r.1@),
            r.1@ == crate::event::told(
                *hook,
                if r.0 is Ok && (breaker matches Some(b) && b@.state_at(now)
                    == BreakerState::HalfOpen) {
                    seq![Event::CircuitStateChanged { to: BreakerState::HalfOpen }]
                } else {
                    seq![]
                },
            ),
    {
        let mut log: Vec<Event> = Vec::new();
        let state = match breaker {
            Some(b) => {
                let state = b.state_at(now);
                if b.gate(now).is_err() {
                    assert(log@ =~= Seq::empty());
                    let context = self.context(again, state);
                    return (Err(ExecutionError::CircuitOpen { context }), log);
                }
                state
            },
            None => BreakerState::Disabled,
        };
        if state == BreakerState::HalfOpen {
            let to = BreakerState::HalfOpen;
            note(
                hook,
                &mut log,
                || -> (e: Event)
                    ensures e == (Event::CircuitStateChanged { to })
                { Event::CircuitStateChanged { to } },
            );
            assert(hook is Some ==> log@ =~= seq![Event::CircuitStateChanged { to }]);
        } else {
            assert(log@ =~= Seq::empty());
        }
        if let Some(b) = budget {
            b.deposit();
        }
        let call = Call {
            start: self.start,
            deadline: self.deadline,
            began: None,
            attempt: 1,
            last_delay: None,
            last_error: None,
        };
        (Ok(Ready { call }), log)
    }
}

/// What a call that has ended tells the breaker.
#[derive(Debug, Clone, Copy, PartialEq, Eq, Structural)]
pub enum Vote {
    Success,
    Failure,
    /// The outcome was not the operation's.
    Abstain,
}

/// `v` may be the vote of a call that returned `result`: a success for a value, a
/// failure for a timeout, and for an error of the operation what `record_when` says of
/// it. A call that was turned away has no vote.
pub open spec fn votes<T, E>(
    result: Result<T, ExecutionError<E>>,
    record_when: Option<ErrorPredicate<E>>,
    v: Vote,
) -> bool {
    match result {
        Ok(_) => v == Vote::Success,
        Err(ExecutionError::AttemptTimeout { .. }) => v == Vote::Failure,
        Err(ExecutionError::TotalTimeout { .. }) => v == Vote::Failure,
        Err(ExecutionError::Operation { source, context: _ }) => match record_when {
            Some(p) => v != Vote::Abstain && p.answers(source, v == Vote::Failure),
            None => v == Vote::Failure,
        },
        Err(_) => v == Vote::Abstain,
    }
}

/// The vote of a call that returned `result`.
pub fn vote<T, E>(
    result: &Result<T, ExecutionError<E>>,
    record_when: &Option<ErrorPredicate<E>>,
) -> (v: Vote)
    ensures
        votes(*result, *record_when, v),
{
    match result {
        Ok(_) => Vote::Success,
        Err(e) => if e.is_timeout() {
            Vote::Failure
        } else {
            match e.source() {
                Some(source) => {
                    let counts = match record_when {
                        Some(p) => p.test(source),
                        None => true,
                    };
                    if counts {
                        Vote::Failure
                    } else {
                        Vote::Success
                    }
                },
                None => Vote::Abstain,
            }
        },
    }
}

/// The state that a vote at `now` moves the breaker to, if it moves it.
pub open spec fn transition(
    breaker: crate::breaker::BreakerModel,
    v: Vote,
    now: Instant,
) -> Option<BreakerState> {
    match v {
        Vote::Success => if breaker.recovers() {
            Some(BreakerState::Closed)
        } else {
            None
        },
        Vote::Failure => if breaker.opens(now) {
            Some(BreakerState::Open)
        } else {
            None
        },
        Vote::Abstain => None,
    }
}

/// The breaker after a vote.
pub open spec fn after_vote(breaker: BreakerModel, v: Vote, now: Instant) -> BreakerModel {
    match v {
        Vote::Success => breaker.after_success(now),
        Vote::Failure => breaker.after_failure(now),
        Vote::Abstain => breaker,
    }
}

/// Cast the one vote of a call that has ended, when the clock reads `now`.
pub fn record(
    v: Vote,
    breaker: &mut BreakerRuntime,
    hook: &Option<EventHook>,
    now: Instant,
) -> (log: Vec<Event>)
    ensures
        final(breaker)@ == after_vote(old(breaker)@, v, now),
        crate::event::delivered(*hook, log@),
        log@ == crate::event::told(
            *hook,
            match transition(old(breaker)@, v, now) {
                Some(to) => seq![Event::CircuitStateChanged { to }],
                None => seq![],
            },
        ),
{
    let mut log: Vec<Event> = Vec::new();
    let moved = match v {
        Vote::Success => breaker.record_success(now),
        Vote::Failure => breaker.record_failure(now),
        Vote::Abstain => None,
    };
    match moved {
        Some(to) => {
            note(
                hook,
                &mut log,
                || -> (e: Event)
                    ensures e == (Event::CircuitStateChanged { to })
                { Event::CircuitStateChanged { to } },
            );
            assert(hook is Some ==> log@ =~= seq![Event::CircuitStateChanged { to }]);
        },
        None => {
            assert(log@ =~= Seq::empty());
        },
    }
    log
}

/// The fallback of last resort is going to be invoked on `error`.
pub fn announce_fallback<E>(error: &ExecutionError<E>, hook: &Option<EventHook>) -> (log: Vec<
    Event,
>)
    ensures
        crate::event::delivered(*hook, log@),
        log@ == crate::event::told(
            *hook,
            seq![Event::FallbackInvoked { attempts: error.spec_context().attempts }],
        ),
{
    let attempts: u32 = error.context().attempts;
    let mut log: Vec<Event> = Vec::new();
    note(
        hook,
        &mut log,
        || -> (e: Event)
            ensures e == (Event::FallbackInvoked { attempts })
        { Event::FallbackInvoked { attempts } },
    );
    assert(hook is Some ==> log@ =~= seq![Event::FallbackInvoked { attempts }]);
    log
}

/// What a call returns that ended in `error` and whose fallback returned `outcome`: the
/// fallback's value, or its error in the context of the failure it was to make good.
pub fn resolve_fallback<T, E>(error: ExecutionError<E>, outcome: Result<T, E>) -> (r: Result<
    T,
    ExecutionError<E>,
>)
    ensures
        r == (match outcome {
            Ok(v) => Ok::<T, ExecutionError<E>>(v),
            Err(source) => Err::<T, ExecutionError<E>>(
                ExecutionError::Operation { source, context: Box::new(error.spec_context()) },
            ),
        }),
{
    match outcome {
        Ok(v) => Ok(v),
        Err(source) => Err(ExecutionError::Operation { source, context: error.into_context() }),
    }
}

} // verus!
