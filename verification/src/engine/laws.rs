//! What holds of a call as a whole.

use vstd::prelude::*;

use crate::attempt::Attempt;
use crate::breaker::{BreakerModel, BreakerRuntime, Latch};
use crate::classify::{ErrorPredicate, RetryDecision};
use crate::concurrency::{PermitOp, Scope, SemaphoreModel};
use crate::engine::{
    Arrival, AttemptOutcome, Call, Due, Ready, Rest, Resting, Running, Scheduled, Settled,
    Settlement, Vote,
};
use crate::error::{BreakerState, ErrorContext, ExecutionError};
use crate::event::{Event, EventHook};
use crate::retry::budget::Bucket;
use crate::retry::Retry;
use crate::time::{Duration, Instant};

verus! {

/// A request for a permit, and what happens to the semaphore around it.
#[verifier::reject_recursive_types(W)]
pub ghost struct Visit<W> {
    /// What everyone does up to the time that this call asks for the last time, its own
    /// waiting included.
    pub before: Seq<PermitOp<W>>,
    /// The ticket and the waker of this call, if it was waiting.
    pub waited: Option<(u64, W)>,
    /// What this call does to leave if it is refused.
    pub leaving: Seq<PermitOp<W>>,
    /// What others do while this call holds its permit.
    pub held: Seq<PermitOp<W>>,
}

impl<W> Visit<W> {
    /// The semaphore as this call asks for the last time.
    pub open spec fn found(self, semaphore: SemaphoreModel<W>) -> SemaphoreModel<W> {
        semaphore.after_all(self.before)
    }

    /// The call gets a permit.
    pub open spec fn granted(self, semaphore: SemaphoreModel<W>) -> bool {
        self.found(semaphore).free > 0
    }

    /// The semaphore once the call was refused, or has given its permit back.
    pub open spec fn done(self, semaphore: SemaphoreModel<W>) -> SemaphoreModel<W> {
        let asked = self.found(semaphore).after(
            match self.waited {
                Some((id, waker)) => PermitOp::Poll { id, waker },
                None => PermitOp::Take,
            },
        );
        if self.granted(semaphore) {
            asked.after_all(self.held).after(PermitOp::GiveBack)
        } else {
            asked.after_all(self.leaving)
        }
    }
}

/// A permit that is taken and given back while nobody waits leaves the semaphore as it was.
pub proof fn law_permits_come_back<W>(visit: Visit<W>, semaphore: SemaphoreModel<W>)
    requires
        semaphore.wf(),
        semaphore.free > 0,
        semaphore.queue.len() == 0,
        visit.before.len() == 0,
        visit.waited is None,
        visit.held.len() == 0,
    ensures
        visit.granted(semaphore),
        visit.done(semaphore) == semaphore,
{
    assert(visit.done(semaphore).queue =~= semaphore.queue);
}

/// What the world contributes between one attempt of a call and the next.
#[verifier::reject_recursive_types(T)]
#[verifier::reject_recursive_types(E)]
#[verifier::reject_recursive_types(W)]
pub ghost struct Round<T, E, W> {
    /// When the attempt began.
    pub began: Instant,
    /// How a permit is asked for, where attempts are limited, and when the clock is read
    /// if there is none.
    pub visit: Visit<W>,
    pub refused: Instant,
    /// How the attempt ended, what was decided on it, and when.
    pub outcome: AttemptOutcome<T, E>,
    pub decision: RetryDecision,
    pub ended: Instant,
    /// The delay that was due, what the last error asked for, and the two readings of
    /// the clock that cut the delay off.
    pub raw: Duration,
    pub hint: Option<Duration>,
    pub at: Instant,
    pub again: Instant,
    /// When the wait was over, and the reading of the clock after that.
    pub woke: Instant,
    pub over: Instant,
}

/// Call `before` makes its attempt and goes on to the next, as call `after`, through a
/// round. What the breaker does meanwhile does not matter to that.
pub open spec fn follows<T, E, W>(
    max_attempts: u32,
    max_elapsed: Option<Duration>,
    before: Call<E>,
    round: Round<T, E, W>,
    after: Call<E>,
) -> bool {
    let state = BreakerState::Disabled;
    match before.begun(round.began).settlement(
        max_attempts,
        max_elapsed,
        round.outcome,
        round.decision,
        round.ended,
        state,
    ) {
        Settlement::Done(_) => false,
        Settlement::Retry(failed) => match failed.rest(
            round.raw,
            round.hint,
            round.at,
            round.again,
            state,
        ) {
            Rest::Done(_) => false,
            Rest::Sleep(_, resting) => {
                &&& !crate::engine::expired(resting.deadline, round.woke)
                &&& after == (Call { attempt: (resting.attempt + 1) as u32, ..resting })
            },
        },
    }
}

/// `calls` is the course of one call, attempt by attempt, through `rounds`.
pub open spec fn course<T, E, W>(
    max_attempts: u32,
    max_elapsed: Option<Duration>,
    calls: Seq<Call<E>>,
    rounds: Seq<Round<T, E, W>>,
) -> bool {
    &&& calls.len() == rounds.len() + 1
    &&& calls[0].attempt == 1
    &&& calls[0].began is None
    &&& forall|k: int|
        0 <= k < rounds.len() ==> #[trigger] follows(
            max_attempts,
            max_elapsed,
            calls[k],
            rounds[k],
            calls[k + 1],
        )
}

/// Attempts are numbered from one without gaps, and arrival and deadline stay what they
/// were at the first.
pub proof fn law_attempts_are_numbered<T, E, W>(
    max_attempts: u32,
    max_elapsed: Option<Duration>,
    calls: Seq<Call<E>>,
    rounds: Seq<Round<T, E, W>>,
    i: int,
)
    requires
        course(max_attempts, max_elapsed, calls, rounds),
        0 <= i < calls.len(),
    ensures
        calls[i].attempt == i + 1,
        i > 0 ==> calls[i].attempt <= max_attempts,
        calls[i].start == calls[0].start,
        calls[i].deadline == calls[0].deadline,
    decreases i,
{
    if i > 0 {
        assert(follows(max_attempts, max_elapsed, calls[i - 1], rounds[i - 1], calls[i - 1 + 1]));
        law_attempts_are_numbered(max_attempts, max_elapsed, calls, rounds, i - 1);
    }
}

/// Every attempt tells the operation the time since the first attempt began, which is not
/// the time since the call arrived.
pub proof fn law_elapsed_counts_from_the_first_attempt<T, E, W>(
    max_attempts: u32,
    max_elapsed: Option<Duration>,
    calls: Seq<Call<E>>,
    rounds: Seq<Round<T, E, W>>,
    i: int,
)
    requires
        course(max_attempts, max_elapsed, calls, rounds),
        0 <= i < rounds.len(),
    ensures
        calls[i].first_began(rounds[i].began) == rounds[0].began,
    decreases i,
{
    if i > 0 {
        assert(follows(max_attempts, max_elapsed, calls[i - 1], rounds[i - 1], calls[i - 1 + 1]));
        law_elapsed_counts_from_the_first_attempt(max_attempts, max_elapsed, calls, rounds, i - 1);
    }
}

/// A call makes no more attempts than the cap allows, and a single one where the cap is
/// zero.
pub proof fn law_attempts_are_capped<T, E, W>(
    max_attempts: u32,
    max_elapsed: Option<Duration>,
    calls: Seq<Call<E>>,
    rounds: Seq<Round<T, E, W>>,
)
    requires
        course(max_attempts, max_elapsed, calls, rounds),
    ensures
        calls.len() <= max_attempts || calls.len() == 1,
{
    law_attempts_are_numbered(max_attempts, max_elapsed, calls, rounds, calls.len() - 1);
}

/// No wait reaches past the deadline, as the clock stood when the wait was planned.
pub proof fn law_waits_end_by_the_deadline<E>(
    call: Call<E>,
    raw: Duration,
    hint: Option<Duration>,
    at: Instant,
    again: Instant,
    state: BreakerState,
)
    requires
        call.deadline is Some,
    ensures
        call.rest(raw, hint, at, again, state) matches Rest::Sleep(delay, _) ==> {
            &&& delay.nanos <= raw.nanos
            &&& delay.nanos > 0 ==> again.nanos + delay.nanos <= call.deadline->0.nanos
        },
{
}

/// No attempt but the first begins once the deadline has come.
pub proof fn law_no_attempt_after_the_deadline<T, E, W>(
    max_attempts: u32,
    max_elapsed: Option<Duration>,
    before: Call<E>,
    round: Round<T, E, W>,
    after: Call<E>,
)
    requires
        follows(max_attempts, max_elapsed, before, round, after),
        before.deadline is Some,
    ensures
        round.woke.nanos < before.deadline->0.nanos,
{
}

/// A hint is honoured or the call ends: where the clock stands still while the wait is
/// planned, a call that waits waits at least as long as the hint asks.
pub proof fn law_hint_honoured_or_ended<E>(
    call: Call<E>,
    raw: Duration,
    hint: Duration,
    at: Instant,
    state: BreakerState,
)
    requires
        raw.nanos >= hint.nanos,
    ensures
        match call.rest(raw, Some(hint), at, at, state) {
            Rest::Sleep(delay, _) => delay.nanos >= hint.nanos,
            Rest::Done(e) => {
                &&& e is TotalTimeout
                &&& call.deadline matches Some(deadline) && deadline.spec_since(at).nanos
                    < hint.nanos
            },
        },
{
}

/// A call returns a value only if the operation returned that value, and then at once
/// unless the value is to be retried and may be.
pub proof fn law_values_come_from_the_operation<T, E>(
    call: Call<E>,
    max_attempts: u32,
    max_elapsed: Option<Duration>,
    outcome: AttemptOutcome<T, E>,
    decision: RetryDecision,
    now: Instant,
    state: BreakerState,
    value: T,
)
    ensures
        (call.settlement(max_attempts, max_elapsed, outcome, decision, now, state) == Settlement::<
            T,
            E,
        >::Done(Ok(value))) == (outcome == AttemptOutcome::<T, E>::Completed(Ok(value)) && (decision
            == RetryDecision::Stop || call.attempt >= max_attempts)),
{
}

/// An error that is not to be retried ends the call as it is.
pub proof fn law_final_errors_are_returned<T, E>(
    call: Call<E>,
    max_attempts: u32,
    max_elapsed: Option<Duration>,
    source: E,
    decision: RetryDecision,
    now: Instant,
    state: BreakerState,
)
    requires
        decision == RetryDecision::Stop || call.attempt >= max_attempts,
    ensures
        call.settlement(
            max_attempts,
            max_elapsed,
            AttemptOutcome::<T, E>::Completed(Err(source)),
            decision,
            now,
            state,
        ) == Settlement::<T, E>::Done(
            Err(ExecutionError::Operation { source, context: call.context_at(now, state) }),
        ),
{
}

/// A call is given up only where no retry was left: an error that is not to be retried is
/// told as a failed attempt, and nothing else is told of it.
pub proof fn law_final_errors_are_not_given_up<T, E>(
    call: Call<E>,
    max_attempts: u32,
    max_elapsed: Option<Duration>,
    source: E,
    now: Instant,
)
    ensures
        call.settlement_events(
            max_attempts,
            max_elapsed,
            AttemptOutcome::<T, E>::Completed(Err(source)),
            RetryDecision::Stop,
            now,
        ) == seq![Event::AttemptFailed { attempt: call.attempt }],
{
}

/// Every failure tells the attempt it happened in, the time since the call arrived, the
/// delay that was last due and the state of the breaker at that time.
pub proof fn law_failures_carry_their_context<T, E>(
    call: Call<E>,
    max_attempts: u32,
    max_elapsed: Option<Duration>,
    outcome: AttemptOutcome<T, E>,
    decision: RetryDecision,
    now: Instant,
    state: BreakerState,
)
    ensures
        call.settlement(max_attempts, max_elapsed, outcome, decision, now, state) matches
            Settlement::Done(Err(e)) ==> e.spec_context() == *call.context_at(now, state),
{
}

/// A call that was turned away, by the breaker, by the concurrency limit or by the retry
/// budget, leaves the breaker as it was.
pub proof fn law_turned_away_calls_do_not_vote<T, E>(
    error: ExecutionError<E>,
    record_when: Option<ErrorPredicate<E>>,
    v: Vote,
)
    requires
        error is CircuitOpen || error is ConcurrencyRejected || error is RetryBudgetExhausted,
        crate::engine::votes(Err::<T, ExecutionError<E>>(error), record_when, v),
    ensures
        v == Vote::Abstain,
{
}

/// Without a predicate on faults, every error of the operation and every timeout counts
/// against the breaker, and every value for it.
pub proof fn law_every_error_is_a_fault_by_default<T, E>(
    result: Result<T, ExecutionError<E>>,
    v: Vote,
)
    requires
        crate::engine::votes(result, None, v),
        result matches Err(e) ==> e is Operation || e is AttemptTimeout || e is TotalTimeout,
    ensures
        v == if result is Ok {
            Vote::Success
        } else {
            Vote::Failure
        },
{
}

/// What a call brings along.
#[verifier::reject_recursive_types(E)]
pub ghost struct Setting<E> {
    pub total_timeout: Option<Duration>,
    pub max_attempts: u32,
    pub max_elapsed: Option<Duration>,
    /// What the concurrency limit counts, if there is one.
    pub scope: Option<Scope>,
    /// Which errors count against the breaker.
    pub record_when: Option<ErrorPredicate<E>>,
}

/// A call as its attempt begins, and what it shares with others at that time.
#[verifier::reject_recursive_types(E)]
#[verifier::reject_recursive_types(W)]
pub ghost struct Standing<E, W> {
    pub call: Call<E>,
    pub budget: Option<Bucket>,
    pub semaphore: SemaphoreModel<W>,
}

/// How one attempt and what follows it leave a call.
#[verifier::reject_recursive_types(T)]
#[verifier::reject_recursive_types(E)]
#[verifier::reject_recursive_types(W)]
pub ghost struct Turn<T, E, W> {
    /// What the call returns, or the call as its next attempt begins.
    pub end: Result<Call<E>, Result<T, ExecutionError<E>>>,
    pub budget: Option<Bucket>,
    pub semaphore: SemaphoreModel<W>,
    pub events: Seq<Event>,
}

/// The turn of a call whose current attempt is due: the attempt begins, is made or refused
/// and settled, the retry paid for and scheduled, and the wait resumed from, each as the
/// stages have it.
#[verifier::opaque]
pub open spec fn turn<T, E, W>(
    setting: Setting<E>,
    breaker: Option<BreakerModel>,
    before: Standing<E, W>,
    round: Round<T, E, W>,
) -> Turn<T, E, W> {
    let call = before.call.begun(round.began);
    let budget = before.budget;
    let limited = setting.scope == Some(Scope::Attempts);
    let semaphore = if limited {
        round.visit.done(before.semaphore)
    } else {
        before.semaphore
    };
    let settled = call.settlement(
        setting.max_attempts,
        setting.max_elapsed,
        round.outcome,
        round.decision,
        round.ended,
        crate::engine::state_of(breaker, round.ended),
    );
    let events = call.settlement_events(
        setting.max_attempts,
        setting.max_elapsed,
        round.outcome,
        round.decision,
        round.ended,
    );
    if limited && !round.visit.granted(before.semaphore) {
        let state = crate::engine::state_of(breaker, round.refused);
        Turn {
            end: Err(
                Err(
                    ExecutionError::ConcurrencyRejected {
                        context: call.unmade().context_at(round.refused, state),
                    },
                ),
            ),
            budget,
            semaphore,
            events: seq![Event::ConcurrencyRejected],
        }
    } else {
        match settled {
            Settlement::Done(r) => Turn { end: Err(r), budget, semaphore, events },
            Settlement::Retry(failed) => if budget matches Some(b) && !b.grants() {
                let state = crate::engine::state_of(breaker, round.ended);
                Turn {
                    end: Err(
                        Err(
                            ExecutionError::RetryBudgetExhausted {
                                context: failed.context_at(round.ended, state),
                            },
                        ),
                    ),
                    budget,
                    semaphore,
                    events: events.push(Event::RetryBudgetExhausted { attempts: failed.attempt }),
                }
            } else {
                let budget = match budget {
                    Some(b) => Some(b.after_withdrawal()),
                    None => None,
                };
                let events = events + failed.rest_events(
                    round.raw,
                    round.hint,
                    round.at,
                    round.again,
                );
                match failed.rest(
                    round.raw,
                    round.hint,
                    round.at,
                    round.again,
                    crate::engine::state_of(breaker, round.again),
                ) {
                    Rest::Done(e) => Turn { end: Err(Err(e)), budget, semaphore, events },
                    Rest::Sleep(_, resting) => if crate::engine::expired(
                        resting.deadline,
                        round.woke,
                    ) {
                        let state = crate::engine::state_of(breaker, round.over);
                        Turn {
                            end: Err(
                                Err(
                                    ExecutionError::TotalTimeout {
                                        context: resting.context_at(round.over, state),
                                    },
                                ),
                            ),
                            budget,
                            semaphore,
                            events: events.push(Event::GaveUp { attempts: resting.attempt }),
                        }
                    } else {
                        Turn {
                            end: Ok(Call { attempt: (resting.attempt + 1) as u32, ..resting }),
                            budget,
                            semaphore,
                            events,
                        }
                    },
                }
            },
        }
    }
}

/// A call whose time ran out, whichever step noticed it, is given up: that is the last
/// thing an observer is told of its attempts, with as many of them as the error tells.
pub proof fn law_timeouts_are_given_up<T, E, W>(
    setting: Setting<E>,
    breaker: Option<BreakerModel>,
    before: Standing<E, W>,
    round: Round<T, E, W>,
)
    ensures
        turn(setting, breaker, before, round).end matches Err(
            Err(ExecutionError::TotalTimeout { context }),
        ) ==> {
            let events = turn(setting, breaker, before, round).events;
            events.len() > 0 && events.last() == (Event::GaveUp { attempts: context.attempts })
        },
{
    reveal(turn);
}

/// Every error that the operation returned is told, before anything that it leads to.
pub proof fn law_errors_are_told<T, E, W>(
    setting: Setting<E>,
    breaker: Option<BreakerModel>,
    before: Standing<E, W>,
    round: Round<T, E, W>,
)
    requires
        setting.scope == Some(Scope::Attempts) ==> round.visit.granted(before.semaphore),
        round.outcome matches AttemptOutcome::Completed(Err(_)),
    ensures
        turn(setting, breaker, before, round).events.len() > 0,
        turn(setting, breaker, before, round).events[0] == (Event::AttemptFailed {
            attempt: before.call.attempt,
        }),
{
    reveal(turn);
}

/// What comes of a call.
#[verifier::reject_recursive_types(T)]
#[verifier::reject_recursive_types(E)]
#[verifier::reject_recursive_types(W)]
pub ghost struct Run<T, E, W> {
    /// How the call stood as each of its attempts began.
    pub standings: Seq<Standing<E, W>>,
    /// What an observer was told before the first attempt, of each attempt, and after the
    /// last.
    pub opening: Seq<Event>,
    pub logs: Seq<Seq<Event>>,
    pub closing: Seq<Event>,
    pub result: Result<T, ExecutionError<E>>,
    /// The budget, the permits and the breaker at the end.
    pub budget: Option<Bucket>,
    pub semaphore: SemaphoreModel<W>,
    pub breaker: Option<BreakerModel>,
}

/// An attempt leads to the next.
pub open spec fn goes_on<T, E, W>(
    setting: Setting<E>,
    breaker: Option<BreakerModel>,
    before: Standing<E, W>,
    round: Round<T, E, W>,
    after: Standing<E, W>,
    log: Seq<Event>,
) -> bool {
    turn(setting, breaker, before, round) == (Turn::<T, E, W> {
        end: Ok(after.call),
        budget: after.budget,
        semaphore: after.semaphore,
        events: log,
    })
}

/// The call takes its turns, one for each of its attempts, and the last one ends it and
/// leaves the permits as `left`.
pub open spec fn takes_turns<T, E, W>(
    setting: Setting<E>,
    breaker: Option<BreakerModel>,
    rounds: Seq<Round<T, E, W>>,
    run: Run<T, E, W>,
    left: SemaphoreModel<W>,
) -> bool {
    let n = run.standings.len();
    &&& 0 < n <= rounds.len()
    &&& run.logs.len() == n
    &&& forall|k: int|
        0 <= k < n - 1 ==> #[trigger] goes_on(
            setting,
            breaker,
            run.standings[k],
            rounds[k],
            run.standings[k + 1],
            run.logs[k],
        )
    &&& turn(setting, breaker, run.standings[n - 1], rounds[n - 1]) == (Turn::<T, E, W> {
        end: Err(run.result),
        budget: run.budget,
        semaphore: left,
        events: run.logs[n - 1],
    })
}

/// What the world contributes to a call as a whole.
#[verifier::reject_recursive_types(T)]
#[verifier::reject_recursive_types(E)]
#[verifier::reject_recursive_types(W)]
pub ghost struct World<T, E, W> {
    /// When the call arrived.
    pub start: Instant,
    /// How a permit is asked for, where operations are limited, and when the clock is read
    /// if there is none.
    pub visit: Visit<W>,
    pub refused: Instant,
    /// When the breaker was asked, and the reading of the clock after that.
    pub asked: Instant,
    pub answered: Instant,
    pub rounds: Seq<Round<T, E, W>>,
    /// What the classifier says of the result, and when the vote is cast.
    pub vote: Vote,
    pub cast: Instant,
}

/// The run makes no attempt and returns `error`.
pub open spec fn turned_away<T, E, W>(run: Run<T, E, W>, error: ExecutionError<E>) -> bool {
    &&& run.standings.len() == 0
    &&& run.logs.len() == 0
    &&& run.closing.len() == 0
    &&& run.result == Err::<T, ExecutionError<E>>(error)
}

/// `run` may come of a call that finds breaker, budget and permits so. Others may take and
/// give back permits meanwhile; breaker and budget it has to itself.
pub open spec fn ran<T, E, W>(
    setting: Setting<E>,
    world: World<T, E, W>,
    breaker: Option<BreakerModel>,
    budget: Option<Bucket>,
    semaphore: SemaphoreModel<W>,
    run: Run<T, E, W>,
) -> bool {
    let limited = setting.scope == Some(Scope::Operations);
    let context = |now: Instant, read: Instant|
        Box::new(
            ErrorContext {
                attempts: 0,
                elapsed: now.spec_since(world.start),
                last_delay: None,
                breaker_state: crate::engine::state_of(breaker, read),
            },
        );
    let passed = match breaker {
        Some(b) => Some(b.after_gate(world.asked)),
        None => None,
    };
    if limited && !world.visit.granted(semaphore) {
        &&& turned_away(
            run,
            ExecutionError::ConcurrencyRejected { context: context(world.refused, world.refused) },
        )
        &&& run.opening == seq![Event::ConcurrencyRejected]
        &&& run.budget == budget
        &&& run.semaphore == world.visit.done(semaphore)
        &&& run.breaker == breaker
    } else if breaker matches Some(b) && !b.admits(world.asked) {
        &&& turned_away(
            run,
            ExecutionError::CircuitOpen { context: context(world.answered, world.asked) },
        )
        &&& run.opening == Seq::<Event>::empty()
        &&& run.budget == budget
        &&& run.semaphore == if limited {
            world.visit.done(semaphore)
        } else {
            semaphore
        }
        &&& run.breaker == breaker
    } else {
        &&& run.standings.len() > 0
        &&& run.standings[0] == (Standing::<E, W> {
            call: Call::<E> {
                start: world.start,
                deadline: match setting.total_timeout {
                    Some(t) => Some(world.start.spec_after(t)),
                    None => None,
                },
                began: None,
                attempt: 1,
                last_delay: None,
                last_error: None,
            },
            budget: match budget {
                Some(b) => Some(b.after_deposit()),
                None => None,
            },
            semaphore,
        })
        &&& if limited {
            &&& takes_turns(setting, passed, world.rounds, run, semaphore)
            &&& run.semaphore == world.visit.done(semaphore)
        } else {
            takes_turns(setting, passed, world.rounds, run, run.semaphore)
        }
        &&& run.opening == if crate::engine::state_of(breaker, world.asked)
            == BreakerState::HalfOpen {
            seq![Event::CircuitStateChanged { to: BreakerState::HalfOpen }]
        } else {
            seq![]
        }
        &&& breaker is Some ==> crate::engine::votes(
            run.result,
            setting.record_when,
            world.vote,
        )
        &&& run.closing == match passed {
            Some(b) => match crate::engine::transition(b, world.vote, world.cast) {
                Some(to) => seq![Event::CircuitStateChanged { to }],
                None => seq![],
            },
            None => seq![],
        }
        &&& run.breaker == match passed {
            Some(b) => Some(crate::engine::after_vote(b, world.vote, world.cast)),
            None => None,
        }
    }
}

proof fn lemma_turns_agree<T, E, W>(
    setting: Setting<E>,
    breaker: Option<BreakerModel>,
    rounds: Seq<Round<T, E, W>>,
    a: Run<T, E, W>,
    b: Run<T, E, W>,
    left_a: SemaphoreModel<W>,
    left_b: SemaphoreModel<W>,
    k: int,
)
    requires
        takes_turns(setting, breaker, rounds, a, left_a),
        takes_turns(setting, breaker, rounds, b, left_b),
        a.standings[0] == b.standings[0],
        0 <= k < a.standings.len(),
        k < b.standings.len(),
    ensures
        a.standings[k] == b.standings[k],
        k < a.standings.len() - 1 <==> k < b.standings.len() - 1,
        a.logs[k] == b.logs[k],
    decreases k,
{
    let n = a.standings.len();
    let m = b.standings.len();
    if k > 0 {
        let j = k - 1;
        lemma_turns_agree(setting, breaker, rounds, a, b, left_a, left_b, j);
        assert(goes_on(setting, breaker, a.standings[j], rounds[j], a.standings[j + 1], a.logs[j]));
        assert(goes_on(setting, breaker, b.standings[j], rounds[j], b.standings[j + 1], b.logs[j]));
    }
    if k < n - 1 {
        assert(goes_on(setting, breaker, a.standings[k], rounds[k], a.standings[k + 1], a.logs[k]));
    }
    if k < m - 1 {
        assert(goes_on(setting, breaker, b.standings[k], rounds[k], b.standings[k + 1], b.logs[k]));
    }
}

proof fn lemma_turns_end_alike<T, E, W>(
    setting: Setting<E>,
    breaker: Option<BreakerModel>,
    rounds: Seq<Round<T, E, W>>,
    a: Run<T, E, W>,
    b: Run<T, E, W>,
    left_a: SemaphoreModel<W>,
    left_b: SemaphoreModel<W>,
)
    requires
        takes_turns(setting, breaker, rounds, a, left_a),
        takes_turns(setting, breaker, rounds, b, left_b),
        a.standings[0] == b.standings[0],
    ensures
        a.standings == b.standings,
        a.logs == b.logs,
        a.result == b.result,
        a.budget == b.budget,
        left_a == left_b,
{
    let n = a.standings.len();
    let m = b.standings.len();
    if n < m {
        lemma_turns_agree(setting, breaker, rounds, a, b, left_a, left_b, n - 1);
    } else {
        lemma_turns_agree(setting, breaker, rounds, a, b, left_a, left_b, m - 1);
    }
    assert forall|k: int| 0 <= k < n implies #[trigger] a.standings[k] == b.standings[k] by {
        lemma_turns_agree(setting, breaker, rounds, a, b, left_a, left_b, k);
    }
    assert forall|k: int| 0 <= k < n implies #[trigger] a.logs[k] == b.logs[k] by {
        lemma_turns_agree(setting, breaker, rounds, a, b, left_a, left_b, k);
    }
    assert(a.standings =~= b.standings);
    assert(a.logs =~= b.logs);
}

/// Two runs agree: where calls are configured alike, find breaker, budget and permits alike
/// and meet the same world, they make the same attempts, tell the same events in the same
/// order, return the same result, and leave breaker, budget and permits in the same state,
/// whatever form the operation is handed over in.
pub proof fn law_equal_worlds_equal_runs<T, E, W>(
    setting: Setting<E>,
    world: World<T, E, W>,
    breaker: Option<BreakerModel>,
    budget: Option<Bucket>,
    semaphore: SemaphoreModel<W>,
    a: Run<T, E, W>,
    b: Run<T, E, W>,
)
    requires
        ran(setting, world, breaker, budget, semaphore, a),
        ran(setting, world, breaker, budget, semaphore, b),
    ensures
        a == b,
{
    let limited = setting.scope == Some(Scope::Operations);
    if a.standings.len() > 0 {
        let passed = match breaker {
            Some(b) => Some(b.after_gate(world.asked)),
            None => None,
        };
        let left_a = if limited {
            semaphore
        } else {
            a.semaphore
        };
        let left_b = if limited {
            semaphore
        } else {
            b.semaphore
        };
        lemma_turns_end_alike(setting, passed, world.rounds, a, b, left_a, left_b);
    } else {
        assert(a.standings =~= b.standings);
        assert(a.logs =~= b.logs);
    }
    assert(a.opening =~= b.opening);
    assert(a.closing =~= b.closing);
}

/// The one vote of a call is what its result calls for. A call that was let through and
/// ended without an outcome of its operation leaves the breaker in the state in which it
/// was let through.
pub proof fn law_votes_follow_the_result<T, E, W>(
    setting: Setting<E>,
    world: World<T, E, W>,
    breaker: BreakerModel,
    budget: Option<Bucket>,
    semaphore: SemaphoreModel<W>,
    run: Run<T, E, W>,
)
    requires
        ran(setting, world, Some(breaker), budget, semaphore, run),
        run.standings.len() > 0,
    ensures
        run.result is Ok ==> world.vote == Vote::Success,
        run.result matches Err(e) ==> {
            &&& e is TotalTimeout || e is AttemptTimeout ==> world.vote == Vote::Failure
            &&& e is ConcurrencyRejected || e is RetryBudgetExhausted ==> run.breaker == Some(
                breaker.after_gate(world.asked),
            )
        },
{
}

/// A call goes on to another attempt exactly where one is due: the operation was not
/// settled, an attempt is left, and the time for retries has not run out. It then carries
/// over all that it had, and the new error if there is one.
pub proof fn law_retries_go_on<T, E>(
    call: Call<E>,
    max_attempts: u32,
    max_elapsed: Option<Duration>,
    outcome: AttemptOutcome<T, E>,
    decision: RetryDecision,
    now: Instant,
    state: BreakerState,
)
    ensures
        ({
            let settled = call.settlement(
                max_attempts,
                max_elapsed,
                outcome,
                decision,
                now,
                state,
            );
            let wanted = outcome is AttemptTimeout || (outcome is Completed && decision
                == RetryDecision::Retry);
            let in_time = max_elapsed matches Some(max) ==> now.nanos < call.start.nanos
                + max.nanos;
            &&& (settled is Retry) == (wanted && call.attempt < max_attempts && (max_elapsed is None
                || (max_elapsed->0.nanos > 0 && in_time)))
            &&& settled matches Settlement::Retry(next) ==> {
                &&& next.start == call.start
                &&& next.deadline == call.deadline
                &&& next.began == call.began
                &&& next.attempt == call.attempt
                &&& next.last_delay == call.last_delay
                &&& match outcome {
                    AttemptOutcome::Completed(Err(e)) => next.last_error == Some(e),
                    _ => next.last_error == call.last_error,
                }
            }
        }),
{
}

/// What a call returns that is over: the value or the error of its last attempt, or how its
/// time ran out. Where it is the time for retries that ran out, the last error of the
/// operation counts, whichever attempt returned it.
pub proof fn law_calls_end_with_their_last_outcome<T, E>(
    call: Call<E>,
    max_attempts: u32,
    max_elapsed: Option<Duration>,
    outcome: AttemptOutcome<T, E>,
    decision: RetryDecision,
    now: Instant,
    state: BreakerState,
)
    ensures
        call.settlement(max_attempts, max_elapsed, outcome, decision, now, state) matches
            Settlement::Done(r) ==> match outcome {
            AttemptOutcome::TotalTimeout => r matches Err(e) && e is TotalTimeout,
            AttemptOutcome::AttemptTimeout => r matches Err(e) && if call.attempt < max_attempts
                && call.last_error is Some {
                e is Operation && e->source == call.last_error->0
            } else {
                e is AttemptTimeout
            },
            AttemptOutcome::Completed(Err(source)) => r matches Err(e) && e is Operation
                && e->source == source,
            AttemptOutcome::Completed(Ok(v)) => if decision == RetryDecision::Stop || call.attempt
                >= max_attempts {
                r == Ok::<T, ExecutionError<E>>(v)
            } else {
                r matches Err(e) && match call.last_error {
                    Some(last) => e is Operation && e->source == last,
                    None => e is AttemptTimeout,
                }
            },
        },
{
}

/// The context of a failure counts the attempts, measures the time since the call arrived,
/// and tells the last delay and the state of the breaker.
pub proof fn law_contexts_measure_the_call<E>(call: Call<E>, now: Instant, state: BreakerState)
    ensures
        ({
            let context = *call.context_at(now, state);
            &&& context.attempts == call.attempt
            &&& context.elapsed.nanos == if now.nanos >= call.start.nanos {
                now.nanos - call.start.nanos
            } else {
                0
            }
            &&& context.last_delay == call.last_delay
            &&& context.breaker_state == state
        }),
        call.attempt > 0 ==> call.unmade().context_at(now, state).attempts == call.attempt - 1,
        call.unmade().context_at(now, state).elapsed == call.context_at(now, state).elapsed,
        call.unmade().context_at(now, state).last_delay == call.last_delay,
        call.unmade().context_at(now, state).breaker_state == state,
{
}

/// The state in a context is that of the breaker at that time, where there is one.
pub proof fn law_contexts_tell_the_breaker(breaker: BreakerModel, now: Instant)
    ensures
        crate::engine::state_of(None, now) == BreakerState::Disabled,
        match breaker.latch {
            Latch::Closed => crate::engine::state_of(Some(breaker), now) == BreakerState::Closed,
            Latch::HalfOpen { .. } => crate::engine::state_of(Some(breaker), now)
                == BreakerState::HalfOpen,
            Latch::Open { until } => crate::engine::state_of(Some(breaker), now) == (if now.nanos
                < until.nanos {
                BreakerState::Open
            } else {
                BreakerState::HalfOpen
            }),
        },
{
}

/// What is told of an outcome, and in which order: an error or a timeout of the attempt
/// first; then success where the call returns a value, and that it was given up where it
/// returns an error although a retry was wanted. Nothing else is told.
pub proof fn law_outcomes_are_told<T, E>(
    call: Call<E>,
    max_attempts: u32,
    max_elapsed: Option<Duration>,
    outcome: AttemptOutcome<T, E>,
    decision: RetryDecision,
    now: Instant,
    state: BreakerState,
)
    ensures
        ({
            let told = call.settlement_events(max_attempts, max_elapsed, outcome, decision, now);
            let settled = call.settlement(
                max_attempts,
                max_elapsed,
                outcome,
                decision,
                now,
                state,
            );
            let first: Seq<Event> = match outcome {
                AttemptOutcome::Completed(Ok(_)) => seq![],
                AttemptOutcome::Completed(Err(_)) => seq![
                    Event::AttemptFailed { attempt: call.attempt },
                ],
                AttemptOutcome::AttemptTimeout => seq![
                    Event::AttemptTimedOut { attempt: call.attempt },
                ],
                AttemptOutcome::TotalTimeout => seq![],
            };
            let last: Seq<Event> = match settled {
                Settlement::Retry(_) => seq![],
                Settlement::Done(Ok(_)) => seq![Event::Succeeded { attempts: call.attempt }],
                Settlement::Done(Err(_)) => if outcome is Completed && decision
                    == RetryDecision::Stop {
                    seq![]
                } else {
                    seq![Event::GaveUp { attempts: call.attempt }]
                },
            };
            told == first + last
        }),
{
}

/// A retry waits exactly as long as its delay, or until the deadline if that comes first;
/// only a hint that reaches past the deadline ends the call. What is told is the wait
/// itself, or that the call was given up.
pub proof fn law_waits_are_exact<E>(
    call: Call<E>,
    raw: Duration,
    hint: Option<Duration>,
    at: Instant,
    again: Instant,
    state: BreakerState,
)
    ensures
        ({
            let rest = call.rest(raw, hint, at, again, state);
            let too_long = call.deadline matches Some(d) && hint matches Some(h) && at.nanos
                + h.nanos > d.nanos && h.nanos > 0;
            &&& (rest is Done) == too_long
            &&& rest matches Rest::Done(e) ==> {
                &&& e is TotalTimeout
                &&& e.spec_context().attempts == call.attempt
                &&& e.spec_context().last_delay == Some(raw)
                &&& e.spec_context().breaker_state == state
                &&& call.rest_events(raw, hint, at, again) == seq![
                    Event::GaveUp { attempts: call.attempt },
                ]
            }
            &&& rest matches Rest::Sleep(delay, resting) ==> {
                &&& match call.deadline {
                    None => delay == raw,
                    Some(d) => if again.nanos + raw.nanos <= d.nanos {
                        delay == raw
                    } else if again.nanos <= d.nanos {
                        again.nanos + delay.nanos == d.nanos
                    } else {
                        delay.nanos == 0
                    },
                }
                &&& resting.start == call.start
                &&& resting.deadline == call.deadline
                &&& resting.began == call.began
                &&& resting.attempt == call.attempt
                &&& resting.last_delay == Some(raw)
                &&& resting.last_error == call.last_error
                &&& call.rest_events(raw, hint, at, again) == seq![
                    Event::RetryScheduled { attempt: call.attempt, delay },
                ]
            }
        }),
{
}

/// A call whose wait is over makes its next attempt unless its deadline has come.
pub proof fn law_calls_expire_at_their_deadline(deadline: Option<Instant>, at: Instant)
    ensures
        deadline is None ==> !crate::engine::expired(deadline, at),
        deadline matches Some(d) ==> crate::engine::expired(deadline, at) == (d.nanos <= at.nanos),
{
}

/// The first attempt notes when it began, and no later one changes that.
pub proof fn law_the_first_attempt_is_noted<E>(call: Call<E>, now: Instant, later: Instant)
    ensures
        call.began is None ==> call.begun(now).began == Some(now) && call.first_began(now) == now,
        call.begun(now).begun(later) == call.begun(now),
        call.begun(now).first_began(later) == call.first_began(now),
        call.begun(now).start == call.start,
        call.begun(now).deadline == call.deadline,
        call.begun(now).attempt == call.attempt,
        call.begun(now).last_delay == call.last_delay,
        call.begun(now).last_error == call.last_error,
{
}

/// The vote of a call that reached its operation: for the breaker if it returned a value,
/// against it if time ran out, and as the predicate says if the operation failed.
pub proof fn law_votes_tell_how_the_operation_did<T, E>(
    result: Result<T, ExecutionError<E>>,
    record_when: Option<ErrorPredicate<E>>,
    v: Vote,
)
    requires
        crate::engine::votes(result, record_when, v),
    ensures
        result is Ok ==> v == Vote::Success,
        result matches Err(e) ==> {
            &&& e is AttemptTimeout || e is TotalTimeout ==> v == Vote::Failure
            &&& e is CircuitOpen || e is ConcurrencyRejected || e is RetryBudgetExhausted ==> v
                == Vote::Abstain
            &&& e is Operation && record_when is None ==> v == Vote::Failure
            &&& e is Operation && record_when is Some ==> {
                ||| v == Vote::Failure && record_when->0.answers(e->source, true)
                ||| v == Vote::Success && record_when->0.answers(e->source, false)
            }
        },
{
}

/// A vote is told as a change exactly where the state of the breaker changes, and with the
/// state that it changes to; an abstention changes nothing.
pub proof fn law_changes_are_told(breaker: BreakerModel, v: Vote, now: Instant)
    requires
        breaker.wf(),
    ensures
        ({
            let after = crate::engine::after_vote(breaker, v, now);
            &&& crate::engine::transition(breaker, v, now) == if after.state()
                != breaker.state() {
                Some(after.state())
            } else {
                None
            }
            &&& v == Vote::Abstain ==> after == breaker
            &&& v == Vote::Success ==> after.state() != BreakerState::Open || breaker.state()
                == BreakerState::Open
            &&& v == Vote::Failure ==> after.state() != BreakerState::HalfOpen
            &&& v == Vote::Failure && breaker.state() == BreakerState::HalfOpen ==> after.state()
                == BreakerState::Open
        }),
{
}

/// What an observer is told where there is one is all that happens, in order; where there
/// is none, nothing.
pub proof fn law_observers_are_told_all(hook: Option<EventHook>, events: Seq<Event>)
    ensures
        hook is Some ==> crate::event::told(hook, events) == events,
        hook is None ==> crate::event::told(hook, events).len() == 0,
        crate::event::delivered(hook, events) == (hook matches Some(h) ==> forall|i: int|
            0 <= i < events.len() ==> h.observed(#[trigger] events[i])),
{
}

/// An operation that fails and is to be retried is run again, attempt after attempt, until
/// it returns a value that is not, as long as the attempts suffice: the call then returns
/// that value, after exactly so many attempts, each numbered by its place.
pub proof fn law_operations_are_retried_until_they_succeed<T, E, W>(
    setting: Setting<E>,
    breaker: Option<BreakerModel>,
    rounds: Seq<Round<T, E, W>>,
    run: Run<T, E, W>,
    left: SemaphoreModel<W>,
    n: int,
    value: T,
)
    requires
        takes_turns(setting, breaker, rounds, run, left),
        setting.scope != Some(Scope::Attempts),
        setting.max_elapsed is None,
        run.standings[0].call.attempt == 1,
        run.standings[0].call.deadline is None,
        run.standings[0].budget is None,
        1 <= n <= rounds.len(),
        n <= setting.max_attempts,
        forall|k: int|
            0 <= k < n - 1 ==> (#[trigger] rounds[k]).outcome is AttemptTimeout || (
            rounds[k].outcome is Completed && rounds[k].decision == RetryDecision::Retry),
        rounds[n - 1].outcome == AttemptOutcome::<T, E>::Completed(Ok(value)),
        rounds[n - 1].decision == RetryDecision::Stop,
    ensures
        run.standings.len() == n,
        run.result == Ok::<T, ExecutionError<E>>(value),
        forall|k: int| 0 <= k < n ==> (#[trigger] run.standings[k]).call.attempt == k + 1,
{
    lemma_retried(setting, breaker, rounds, run, left, n, n - 1);
    assert forall|k: int| 0 <= k < n implies (#[trigger] run.standings[k]).call.attempt == k
        + 1 by {
        lemma_retried(setting, breaker, rounds, run, left, n, k);
    }
    let m = run.standings.len() - 1;
    if m >= n {
        assert(goes_on(
            setting,
            breaker,
            run.standings[n - 1],
            rounds[n - 1],
            run.standings[n - 1 + 1],
            run.logs[n - 1],
        ));
        reveal(turn);
    }
    assert(run.standings[n - 1].call.attempt == n);
    reveal(turn);
}

proof fn lemma_retried<T, E, W>(
    setting: Setting<E>,
    breaker: Option<BreakerModel>,
    rounds: Seq<Round<T, E, W>>,
    run: Run<T, E, W>,
    left: SemaphoreModel<W>,
    n: int,
    k: int,
)
    requires
        takes_turns(setting, breaker, rounds, run, left),
        setting.scope != Some(Scope::Attempts),
        setting.max_elapsed is None,
        run.standings[0].call.attempt == 1,
        run.standings[0].call.deadline is None,
        run.standings[0].budget is None,
        0 <= k < n <= rounds.len(),
        n <= setting.max_attempts,
        forall|j: int|
            0 <= j < n - 1 ==> (#[trigger] rounds[j]).outcome is AttemptTimeout || (
            rounds[j].outcome is Completed && rounds[j].decision == RetryDecision::Retry),
    ensures
        k < run.standings.len(),
        run.standings[k].call.attempt == k + 1,
        run.standings[k].call.deadline is None,
        run.standings[k].budget is None,
    decreases k,
{
    if k > 0 {
        let j = k - 1;
        lemma_retried(setting, breaker, rounds, run, left, n, j);
        reveal(turn);
        assert(rounds[j].outcome is AttemptTimeout || rounds[j].outcome is Completed);
        assert(turn(setting, breaker, run.standings[j], rounds[j]).end is Ok);
        if j < run.standings.len() - 1 {
            assert(goes_on(
                setting,
                breaker,
                run.standings[j],
                rounds[j],
                run.standings[j + 1],
                run.logs[j],
            ));
        }
    }
}

/// Every attempt but the last led to another one, and the last did not: a call ends as soon
/// as it is settled and not before. In particular an error that is not to be retried ends
/// it with that error at the attempt that returned it.
pub proof fn law_final_errors_end_the_run<T, E, W>(
    setting: Setting<E>,
    breaker: Option<BreakerModel>,
    rounds: Seq<Round<T, E, W>>,
    run: Run<T, E, W>,
    left: SemaphoreModel<W>,
    k: int,
    source: E,
)
    requires
        takes_turns(setting, breaker, rounds, run, left),
        setting.scope != Some(Scope::Attempts),
        0 <= k < run.standings.len(),
        rounds[k].outcome == AttemptOutcome::<T, E>::Completed(Err(source)),
        rounds[k].decision == RetryDecision::Stop || run.standings[k].call.attempt
            >= setting.max_attempts,
    ensures
        k == run.standings.len() - 1,
        run.result matches Err(e) && e is Operation && e->source == source
            && e.spec_context().attempts == run.standings[k].call.attempt,
{
    reveal(turn);
    if k < run.standings.len() - 1 {
        assert(goes_on(
            setting,
            breaker,
            run.standings[k],
            rounds[k],
            run.standings[k + 1],
            run.logs[k],
        ));
    }
}

/// A retry is paid for out of the budget: an attempt that leads to another takes exactly
/// one retry out of it, and one for which there is none left ends the call.
pub proof fn law_retries_are_paid_for<T, E, W>(
    setting: Setting<E>,
    breaker: Option<BreakerModel>,
    before: Standing<E, W>,
    round: Round<T, E, W>,
)
    requires
        before.budget is Some,
        before.budget->0.wf(),
        setting.scope != Some(Scope::Attempts),
    ensures
        ({
            let after = turn(setting, breaker, before, round);
            let b = before.budget->0;
            &&& after.budget is Some
            &&& after.end is Ok ==> b.tokens >= 1000 && after.budget->0.tokens == b.tokens - 1000
            &&& (after.end matches Err(Err(e)) && e is RetryBudgetExhausted) ==> b.tokens < 1000
                && after.budget == before.budget
            &&& after.budget->0.max_tokens == b.max_tokens
            &&& after.budget->0.deposit == b.deposit
        }),
{
    reveal(turn);
}

/// In the race of an attempt a result always counts; without one, the attempt's own time
/// comes before that of the call, and a race is undecided only while neither has run out.
pub proof fn law_results_win_the_race<T, E>(
    result: Option<Result<T, E>>,
    attempt_elapsed: bool,
    total_elapsed: bool,
    o: Option<AttemptOutcome<T, E>>,
)
    requires
        call_ensures(
            crate::engine::race_attempt::<T, E>,
            (result, attempt_elapsed, total_elapsed),
            o,
        ),
    ensures
        result matches Some(r) ==> o == Some(AttemptOutcome::<T, E>::Completed(r)),
        result is None && attempt_elapsed ==> o == Some(AttemptOutcome::<T, E>::AttemptTimeout),
        result is None && !attempt_elapsed && total_elapsed ==> o == Some(
            AttemptOutcome::<T, E>::TotalTimeout,
        ),
        o is None <==> result is None && !attempt_elapsed && !total_elapsed,
{
}

/// A fallback that returns a value makes the failure good, and one that fails reports its
/// own error in the context of the failure.
pub proof fn law_fallbacks_recover_or_report<T, E>(
    error: ExecutionError<E>,
    outcome: Result<T, E>,
    r: Result<T, ExecutionError<E>>,
)
    requires
        call_ensures(crate::engine::resolve_fallback::<T, E>, (error, outcome), r),
    ensures
        outcome matches Ok(v) ==> r == Ok::<T, ExecutionError<E>>(v),
        outcome matches Err(source) ==> (r matches Err(e) && e is Operation && e->source == source
            && e.spec_context() == error.spec_context()),
{
}

/// An attempt is told its number and the time since the first one began, and the call goes
/// on as it was.
pub proof fn law_attempts_know_their_place<E>(
    ready: Ready<E>,
    now: Instant,
    r: (Attempt, Running<E>),
)
    requires
        call_ensures(Ready::<E>::begin, (ready, now), r),
    ensures
        r.0.parts().0 == ready.call().attempt,
        r.0.parts().1 == (if ready.call().began is Some {
            ready.call().began->0
        } else {
            now
        }),
        r.0.parts().2 == now,
        r.1.call() == ready.call().begun(now),
{
}

/// A call whose wait is over either makes the attempt after the one that failed, or was too
/// late and is given up.
pub proof fn law_calls_resume_or_are_given_up<E>(
    resting: Resting<E>,
    breaker: Option<&BreakerRuntime>,
    hook: &Option<EventHook>,
    at: Instant,
    again: Instant,
    r: (Result<Ready<E>, ExecutionError<E>>, Vec<Event>),
)
    requires
        call_ensures(Resting::<E>::resume, (resting, breaker, hook, at, again), r),
    ensures
        (r.0 is Ok) == (resting.call().deadline matches Some(d) ==> at.nanos < d.nanos),
        r.0 matches Ok(ready) ==> {
            &&& ready.call().attempt == resting.call().attempt + 1
            &&& ready.call().start == resting.call().start
            &&& ready.call().deadline == resting.call().deadline
            &&& ready.call().began == resting.call().began
            &&& ready.call().last_delay == resting.call().last_delay
            &&& ready.call().last_error == resting.call().last_error
            &&& r.1@.len() == 0
        },
        r.0 matches Err(e) ==> {
            &&& e is TotalTimeout
            &&& e.spec_context().attempts == resting.call().attempt
            &&& hook is Some ==> r.1@ == seq![
                Event::GaveUp { attempts: resting.call().attempt },
            ]
        },
{
}

/// A call that is turned away makes no attempt, and tells so.
pub proof fn law_rejected_attempts_are_told<E>(
    running: Running<E>,
    breaker: Option<&BreakerRuntime>,
    hook: &Option<EventHook>,
    now: Instant,
    r: (ExecutionError<E>, Vec<Event>),
)
    requires
        call_ensures(Running::<E>::reject, (running, breaker, hook, now), r),
    ensures
        r.0 is ConcurrencyRejected,
        r.0.spec_context().attempts == running.call().attempt - 1,
        hook is Some ==> r.1@ == seq![Event::ConcurrencyRejected],
        hook is None ==> r.1@.len() == 0,
{
}

/// A retry costs one token of the budget, if there is one: it is granted exactly where the
/// budget holds a whole token, and a budget that holds none is left alone.
pub proof fn law_retries_cost_a_token<E>(
    before: Option<Bucket>,
    after: Option<Bucket>,
    r: Result<Call<E>, ExecutionError<E>>,
)
    requires
        crate::engine::charged(before, after, r),
    ensures
        before is None ==> r is Ok && after is None,
        before matches Some(b) ==> {
            &&& after is Some
            &&& (r is Ok) == (b.tokens >= 1000)
            &&& after->0.tokens == b.tokens - if r is Ok {
                1000int
            } else {
                0
            }
            &&& after->0.max_tokens == b.max_tokens
            &&& after->0.deposit == b.deposit
            &&& r is Err ==> r->Err_0 is RetryBudgetExhausted
        },
{
}

/// A call passes unless the breaker is open or has all the probes it wants: it then makes its
/// deposit, and its first attempt is due. One that is turned away makes no deposit and no
/// attempt, and tells the state of the breaker and how long it was there.
pub proof fn law_arrivals_pass_or_are_turned_away<E>(
    arrival: Arrival,
    breaker: (Option<BreakerModel>, Option<BreakerModel>),
    budget: (Option<Bucket>, Option<Bucket>),
    now: Instant,
    again: Instant,
    r: Result<Call<E>, ExecutionError<E>>,
)
    requires
        arrival.passed(breaker, budget, now, again, r),
    ensures
        (r is Ok) == (match breaker.0 {
            None => true,
            Some(b) => match b.latch {
                Latch::Closed => true,
                Latch::Open { until } => until.nanos <= now.nanos,
                Latch::HalfOpen { in_flight, .. } => in_flight < b.half_open_max_calls,
            },
        }),
        r is Err ==> breaker.1 == breaker.0 && budget.1 == budget.0,
        r matches Err(e) ==> {
            &&& e is CircuitOpen
            &&& e.spec_context().attempts == 0
            &&& e.spec_context().last_delay is None
            &&& e.spec_context().breaker_state == (if breaker.0->0.latch is Open {
                BreakerState::Open
            } else {
                BreakerState::HalfOpen
            })
            &&& e.spec_context().elapsed.nanos == if again.nanos >= arrival.spec_start().nanos {
                again.nanos - arrival.spec_start().nanos
            } else {
                0
            }
        },
        r matches Ok(call) ==> {
            &&& call.attempt == 1
            &&& call.began is None
            &&& call.last_delay is None
            &&& call.last_error is None
            &&& call.start == arrival.spec_start()
            &&& call.deadline == arrival.spec_deadline()
        },
        budget.1 is Some == budget.0 is Some,
        r is Ok && budget.0 is Some ==> ({
            let b = budget.0->0;
            budget.1->0.tokens == if b.tokens + b.deposit <= b.max_tokens {
                b.tokens + b.deposit
            } else {
                b.max_tokens
            }
        }),
        breaker.1 is Some == breaker.0 is Some,
        breaker.0 matches Some(b) ==> {
            &&& b.latch is Closed ==> breaker.1->0 == b
            &&& r is Ok && !(b.latch is Closed) ==> (breaker.1->0.latch matches Latch::HalfOpen {
                in_flight,
                successes,
            } && match b.latch {
                Latch::HalfOpen { in_flight: before, successes: same } => in_flight == before + 1
                    && successes == same,
                _ => in_flight == 1 && successes == 0,
            })
        },
{
}

/// A call that arrives has so long as it was given, counted from its arrival, or for ever.
pub proof fn law_arrivals_have_their_time(
    total_timeout: Option<Duration>,
    start: Instant,
    a: Arrival,
)
    requires
        call_ensures(Arrival::new, (total_timeout, start), a),
    ensures
        a.spec_start() == start,
        total_timeout is None ==> a.spec_deadline() is None,
        total_timeout matches Some(t) ==> (a.spec_deadline() matches Some(d) && (start.nanos
            + t.nanos <= u128::MAX ==> d.nanos == start.nanos + t.nanos)),
{
}

/// A call that the concurrency limit turns away on arrival made no attempt, and tells so.
pub proof fn law_rejected_arrivals_are_told<E>(
    arrival: Arrival,
    breaker: Option<&BreakerRuntime>,
    hook: &Option<EventHook>,
    now: Instant,
    r: (ExecutionError<E>, Vec<Event>),
)
    requires
        call_ensures(Arrival::reject::<E>, (arrival, breaker, hook, now), r),
    ensures
        r.0 is ConcurrencyRejected,
        r.0.spec_context().attempts == 0,
        r.0.spec_context().last_delay is None,
        r.0.spec_context().elapsed.nanos == if now.nanos >= arrival.spec_start().nanos {
            now.nanos - arrival.spec_start().nanos
        } else {
            0
        },
        breaker is None ==> r.0.spec_context().breaker_state == BreakerState::Disabled,
        breaker matches Some(b) ==> r.0.spec_context().breaker_state == b@.state_at(now),
        hook is Some ==> r.1@ == seq![Event::ConcurrencyRejected],
        hook is None ==> r.1@.len() == 0,
        hook matches Some(h) ==> h.observed(Event::ConcurrencyRejected),
{
    if let Some(h) = hook {
        assert(r.1@[0] == Event::ConcurrencyRejected);
    }
}

/// The fallback of last resort is told with the number of attempts before it.
pub proof fn law_fallbacks_are_told<E>(
    error: &ExecutionError<E>,
    hook: &Option<EventHook>,
    log: Vec<Event>,
)
    requires
        call_ensures(crate::engine::announce_fallback::<E>, (error, hook), log),
    ensures
        hook is None ==> log@.len() == 0,
        hook matches Some(h) ==> {
            &&& log@.len() == 1
            &&& log@[0] == (Event::FallbackInvoked { attempts: error.spec_context().attempts })
            &&& h.observed(log@[0])
        },
{
}

/// The classifier has the last word on a result, within what is left of attempts and time: a
/// result that it always wants retried is retried, and one that it never does ends the call.
/// A timeout of the attempt is retried whatever it says, one of the call never.
pub proof fn law_the_classifier_decides_on_retries<T, E>(
    running: Running<E>,
    retry: &Retry<T, E>,
    breaker: Option<&BreakerRuntime>,
    hook: &Option<EventHook>,
    outcome: AttemptOutcome<T, E>,
    now: Instant,
    r: (Settled<T, E>, Vec<Event>),
)
    requires
        call_ensures(
            Running::<E>::settle::<T>,
            (running, retry, breaker, hook, outcome, now),
            r,
        ),
    ensures
        ({
            let start = running.call().start.nanos;
            let left = running.call().attempt < retry@.max_attempts && (retry@.max_elapsed matches
                Some(max) ==> max.nanos > 0 && now.nanos < start + max.nanos);
            match outcome {
                AttemptOutcome::Completed(result) => {
                    &&& left && (forall|d: RetryDecision| #[trigger]
                        (retry@.decides)(result, d) ==> d == RetryDecision::Retry)
                        ==> r.0 is Retry
                    &&& (forall|d: RetryDecision| #[trigger]
                        (retry@.decides)(result, d) ==> d == RetryDecision::Stop) ==> match result {
                        Ok(v) => r.0 == Settled::<T, E>::Done(Ok(v)),
                        Err(source) => r.0 matches Settled::Done(Err(e)) && e is Operation
                            && e->source == source,
                    }
                    &&& !left ==> r.0 is Done
                },
                AttemptOutcome::AttemptTimeout => (r.0 is Retry) == left,
                AttemptOutcome::TotalTimeout => r.0 matches Settled::Done(Err(e)) && e
                    is TotalTimeout,
            }
        }),
        r.0 matches Settled::Retry(failed) ==> {
            &&& failed.spec_at() == now
            &&& failed.call().attempt == running.call().attempt
            &&& failed.call().deadline == running.call().deadline
            &&& failed.call().start == running.call().start
            &&& failed.call().last_error == (match outcome {
                AttemptOutcome::Completed(Err(e)) => Some(e),
                _ => running.call().last_error,
            })
        },
{
}

/// A retry that is due waits for the delay of its attempt, or until the deadline if that comes
/// first, unless the last error asks for a wait that reaches past the deadline.
pub proof fn law_retries_wait_for_their_delay<T, E>(
    due: Due<E>,
    retry: &Retry<T, E>,
    breaker: Option<&BreakerRuntime>,
    hook: &Option<EventHook>,
    draw: u64,
    at: Instant,
    again: Instant,
    r: (Scheduled<E>, Vec<Event>),
)
    requires
        call_ensures(
            Due::<E>::schedule::<T>,
            (due, retry, breaker, hook, draw, at, again),
            r,
        ),
    ensures
        due.call().deadline is None ==> r.0 is Sleep,
        due.call().last_error is None ==> r.0 is Sleep,
        r.0 matches Scheduled::Sleep(delay, resting) ==> {
            &&& resting.call().last_delay is Some
            &&& retry@.delays(
                due.call().attempt,
                draw,
                due.call().last_error,
                resting.call().last_delay->0,
            )
            &&& due.call().deadline is None ==> delay == resting.call().last_delay->0
            &&& due.call().deadline matches Some(d) ==> {
                &&& again.nanos + resting.call().last_delay->0.nanos <= d.nanos ==> delay
                    == resting.call().last_delay->0
                &&& again.nanos + resting.call().last_delay->0.nanos > d.nanos && again.nanos
                    <= d.nanos ==> again.nanos + delay.nanos == d.nanos
                &&& again.nanos > d.nanos ==> delay.nanos == 0
            }
            &&& resting.call().attempt == due.call().attempt
            &&& hook is Some ==> r.1@ == seq![
                Event::RetryScheduled { attempt: due.call().attempt, delay },
            ]
        },
        r.0 matches Scheduled::Done(e) ==> {
            &&& e is TotalTimeout
            &&& e.spec_context().attempts == due.call().attempt
            &&& hook is Some ==> r.1@ == seq![Event::GaveUp { attempts: due.call().attempt }]
            &&& due.call().deadline matches Some(d) && exists|hint: Duration|
                retry@.hinted(due.call().last_error, Some(hint)) && at.nanos + #[trigger] hint.nanos
                    > d.nanos
        },
{
    let (raw, hint) = choose|raw: Duration, hint: Option<Duration>|
        {
            &&& #[trigger] retry@.delays(
                due.call().attempt,
                draw,
                due.call().last_error,
                raw,
            )
            &&& #[trigger] retry@.hinted(due.call().last_error, hint)
            &&& r.0.spec_rest() == due.call().rest(
                raw,
                hint,
                at,
                again,
                crate::engine::state_of(crate::engine::model_of(breaker), again),
            )
            &&& crate::event::delivered(*hook, r.1@)
            &&& r.1@ == crate::event::told(*hook, due.call().rest_events(raw, hint, at, again))
        };
    if r.0 is Done {
        let h = hint->0;
        assert(at.nanos + h.nanos > due.call().deadline->0.nanos);
    }
}

} // verus!
