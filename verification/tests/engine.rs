//! Calls, run through all their stages on a virtual clock.

use std::sync::{Arc, Mutex};

use execution_policy::builder::Fault;
use execution_policy::concurrency::{Admission, Permit, Scope};
use execution_policy::engine::{
    announce_fallback, race_attempt, record, resolve_fallback, vote, Arrival, AttemptOutcome,
    Scheduled, Settled, Vote,
};
use execution_policy::plan::Plan;
use execution_policy::runtime::{ManualClock, TestCore};
use execution_policy::{
    Attempt, BreakerState, BuildError, CircuitBreaker, ConcurrencyLimit, Core, Double, Duration,
    ErrorContext, Event, ExecutionError, ExecutionPolicy, ExecutionPolicyBuilder, Instant, Retry,
    RetryBudget, RetryDecision,
};

type VirtualCore = TestCore<u32>;

/// A policy with its parts at hand, and how it runs an operation.
struct Rig<T, E> {
    core: VirtualCore,
    plan: Plan<T, E, u32>,
    budget: Option<RetryBudget>,
    events: Vec<Event>,
    held: Vec<Permit>,
    slept: Vec<Duration>,
}

impl<T, E> Rig<T, E> {
    fn new(builder: ExecutionPolicyBuilder<T, E>) -> Self {
        let core = TestCore::new(ManualClock::new());
        let policy: ExecutionPolicy<VirtualCore, T, E, u32> =
            builder.try_build(core).expect("a valid policy");
        let (core, mut plan) = policy.into_parts();
        let (retry, budget) = plan.retry.take_budget();
        plan.retry = retry;
        Rig { core, plan, budget, events: Vec::new(), held: Vec::new(), slept: Vec::new() }
    }

    /// Take a permit if the policy limits `scope`; a caller that would queue gives up.
    fn permit(&mut self, scope: Scope) -> Result<Option<Permit>, ()> {
        if !self.plan.limits(scope) {
            return Ok(None);
        }
        match self.plan.concurrency.as_mut().expect("limited").request() {
            Admission::Granted(p) => Ok(Some(p)),
            _ => Err(()),
        }
    }

    fn give_back(&mut self, permit: Option<Permit>) {
        if let (Some(p), Some(c)) = (permit, self.plan.concurrency.as_mut()) {
            c.sem.release(p);
        }
    }

    fn log(&mut self, events: Vec<Event>) {
        self.events.extend(events);
    }

    /// Run an operation. It may let time pass on the clock.
    fn run(
        &mut self,
        mut op: impl FnMut(Attempt, &mut VirtualCore) -> AttemptOutcome<T, E>,
    ) -> Result<T, ExecutionError<E>> {
        let arrival = Arrival::new(self.plan.total_timeout, self.core.now());
        let permit = match self.permit(Scope::Operations) {
            Ok(p) => p,
            Err(()) => {
                let breaker = self.plan.breaker.as_ref().map(|b| &b.runtime);
                let now = self.core.now();
                let (e, events) = arrival.reject(breaker, &self.plan.on_event, now);
                self.log(events);
                return Err(e);
            }
        };
        let now = self.core.now();
        let (passed, events) = arrival.pass(
            self.plan.breaker.as_mut().map(|b| &mut b.runtime),
            self.budget.as_mut(),
            &self.plan.on_event,
            now,
            now,
        );
        self.log(events);
        let result = match passed {
            Err(e) => {
                self.give_back(permit);
                return Err(e);
            }
            Ok(ready) => self.drive(ready, &mut op),
        };
        let now = self.core.now();
        if let Some(b) = self.plan.breaker.as_mut() {
            let v = vote(&result, &b.record_when);
            let events = record(v, &mut b.runtime, &self.plan.on_event, now);
            self.events.extend(events);
        }
        self.give_back(permit);
        result
    }

    fn drive(
        &mut self,
        mut ready: execution_policy::engine::Ready<E>,
        op: &mut impl FnMut(Attempt, &mut VirtualCore) -> AttemptOutcome<T, E>,
    ) -> Result<T, ExecutionError<E>> {
        loop {
            let (attempt, running) = ready.begin(self.core.now());
            let permit = match self.permit(Scope::Attempts) {
                Ok(p) => p,
                Err(()) => {
                    let breaker = self.plan.breaker.as_ref().map(|b| &b.runtime);
                    let now = self.core.now();
                    let (e, events) = running.reject(breaker, &self.plan.on_event, now);
                    self.log(events);
                    return Err(e);
                }
            };
            let outcome = op(attempt, &mut self.core);
            self.give_back(permit);
            let now = self.core.now();
            let breaker = self.plan.breaker.as_ref().map(|b| &b.runtime);
            let (settled, events) =
                running.settle(&self.plan.retry, breaker, &self.plan.on_event, outcome, now);
            self.log(events);
            let failed = match settled {
                Settled::Done(r) => return r,
                Settled::Retry(failed) => failed,
            };
            let breaker = self.plan.breaker.as_ref().map(|b| &b.runtime);
            let (charged, events) =
                failed.charge(self.budget.as_mut(), breaker, &self.plan.on_event);
            self.log(events);
            let due = charged?;
            let draw = self.core.next_u64();
            let now = self.core.now();
            let breaker = self.plan.breaker.as_ref().map(|b| &b.runtime);
            let (scheduled, events) =
                due.schedule(&self.plan.retry, breaker, &self.plan.on_event, draw, now, now);
            self.log(events);
            let (delay, resting) = match scheduled {
                Scheduled::Done(e) => return Err(e),
                Scheduled::Sleep(delay, resting) => (delay, resting),
            };
            self.slept.push(delay);
            self.core.clock.advance(delay);
            let now = self.core.now();
            let breaker = self.plan.breaker.as_ref().map(|b| &b.runtime);
            let (resumed, events) = resting.resume(breaker, &self.plan.on_event, now, now);
            self.log(events);
            ready = resumed?;
        }
    }
}

fn completed<T, E>(r: Result<T, E>) -> AttemptOutcome<T, E> {
    AttemptOutcome::Completed(r)
}

fn rig(retry: Retry<u32, &'static str>) -> Rig<u32, &'static str> {
    Rig::new(ExecutionPolicyBuilder::new().retry(retry))
}

type Sink = Arc<Mutex<Vec<Event>>>;

fn recorder() -> (Sink, impl Fn(&Event) + Send + Sync + 'static) {
    let sink: Sink = Arc::new(Mutex::new(Vec::new()));
    let inner = Arc::clone(&sink);
    (sink, move |e: &Event| inner.lock().unwrap().push(e.clone()))
}

#[test]
fn succeeds_first_try() {
    let mut p = rig(Retry::none());
    assert_eq!(p.run(|_a, _c| completed(Ok(7))).unwrap(), 7);
}

#[test]
fn retries_then_succeeds() {
    let mut p = rig(Retry::fixed(Duration::zero()).max_attempts(3));
    let mut calls = 0;
    let r = p.run(|a, _c| {
        calls += 1;
        completed(if a.number() < 3 { Err("transient") } else { Ok(42) })
    });
    assert_eq!(r.unwrap(), 42);
    assert_eq!(calls, 3);
}

#[test]
fn exhausts_and_reports_last_error() {
    let mut p = rig(Retry::fixed(Duration::zero()).max_attempts(2));
    let e = p.run(|_a, _c| completed(Err("always"))).unwrap_err();
    assert!(e.is_exhausted());
    assert_eq!(e.context().attempts, 2);
    assert_eq!(e.into_inner(), Some("always"));
}

#[derive(Debug, Clone)]
struct HintedError {
    hint: Option<Duration>,
}

fn hinted(retry: Retry<u32, HintedError>, total: Option<Duration>) -> Rig<u32, HintedError> {
    let builder = ExecutionPolicyBuilder::new().retry(retry);
    Rig::new(match total {
        Some(t) => builder.total_timeout(t),
        None => builder,
    })
}

#[test]
fn retry_after_hint_exceeding_budget_stops() {
    let retry = Retry::fixed(Duration::from_millis(100))
        .max_attempts(5)
        .retry_after(|e: &HintedError| e.hint);
    // total budget: 1 s; hint: 2 s. The call must stop, not sleep past the deadline.
    let mut p = hinted(retry, Some(Duration::from_secs(1)));
    let r = p.run(|_a, _c| completed(Err(HintedError { hint: Some(Duration::from_secs(2)) })));
    assert!(r.unwrap_err().is_timeout(), "expected TotalTimeout when hint exceeds the budget");
    assert_eq!(p.slept, vec![]);
}

#[test]
fn a_hint_within_the_budget_is_waited_for() {
    let retry = Retry::fixed(Duration::from_millis(100))
        .max_attempts(2)
        .retry_after(|e: &HintedError| e.hint);
    let mut p = hinted(retry, Some(Duration::from_secs(3)));
    let r = p.run(|a, _c| {
        completed(if a.number() == 1 {
            Err(HintedError { hint: Some(Duration::from_secs(2)) })
        } else {
            Ok(5)
        })
    });
    assert_eq!(r.unwrap(), 5);
    assert_eq!(p.slept, vec![Duration::from_secs(2)]);
}

#[test]
fn no_extractor_ignores_hint_in_error() {
    let mut p = hinted(Retry::fixed(Duration::zero()).max_attempts(2), None);
    let r = p.run(|a, _c| {
        completed(if a.number() < 2 {
            Err(HintedError { hint: Some(Duration::from_secs(999)) })
        } else {
            Ok(1)
        })
    });
    assert_eq!(r.unwrap(), 1);
    assert_eq!(p.slept, vec![Duration::zero()]);
}

#[test]
fn none_hint_falls_back_to_plain_backoff() {
    let retry = Retry::fixed(Duration::zero())
        .max_attempts(2)
        .retry_after(|e: &HintedError| e.hint);
    let mut p = hinted(retry, None);
    let r = p.run(|a, _c| {
        completed(if a.number() < 2 { Err(HintedError { hint: None }) } else { Ok(7) })
    });
    assert_eq!(r.unwrap(), 7);
}

#[test]
fn emits_attempt_failed_and_succeeded() {
    let (seen, hook) = recorder();
    let mut p: Rig<u32, &str> = Rig::new(
        ExecutionPolicyBuilder::new()
            .retry(Retry::fixed(Duration::zero()).max_attempts(3))
            .on_event(hook),
    );
    let r = p.run(|a, _c| completed(if a.number() < 3 { Err("transient") } else { Ok(1) }));
    assert!(r.is_ok());
    let expected = vec![
        Event::AttemptFailed { attempt: 1 },
        Event::RetryScheduled { attempt: 1, delay: Duration::zero() },
        Event::AttemptFailed { attempt: 2 },
        Event::RetryScheduled { attempt: 2, delay: Duration::zero() },
        Event::Succeeded { attempts: 3 },
    ];
    assert_eq!(*seen.lock().unwrap(), expected);
    assert_eq!(p.events, expected);
}

#[test]
fn emits_gave_up_on_exhaustion() {
    let (seen, hook) = recorder();
    let mut p: Rig<u32, &str> = Rig::new(
        ExecutionPolicyBuilder::new()
            .retry(Retry::fixed(Duration::zero()).max_attempts(2))
            .on_event(hook),
    );
    let _ = p.run(|_a, _c| completed(Err("always")));
    assert!(seen.lock().unwrap().contains(&Event::GaveUp { attempts: 2 }));
    // The last error is told as well.
    let told = seen.lock().unwrap().clone();
    assert_eq!(
        told[told.len() - 2..],
        [Event::AttemptFailed { attempt: 2 }, Event::GaveUp { attempts: 2 }]
    );
}

#[test]
fn a_refused_attempt_does_not_count_the_ones_before_it_do() {
    let mut p: Rig<u32, &str> = Rig::new(
        ExecutionPolicyBuilder::new()
            .retry(Retry::fixed(Duration::zero()).max_attempts(3))
            .concurrency_limit(ConcurrencyLimit::attempts(1).reject()),
    );
    let arrival = Arrival::new(None, p.core.now());
    let now = p.core.now();
    let ready = arrival.pass::<&str>(None, None, &None, now, now).0.unwrap();
    let (_, running) = ready.begin(now);
    let failed = match running.settle(&p.plan.retry, None, &None, completed::<u32, &str>(Err("x")), now).0 {
        Settled::Retry(failed) => failed,
        Settled::Done(_) => panic!("a retry is due"),
    };
    let due = failed.charge(None, None, &None).0.unwrap();
    let resting = match due.schedule(&p.plan.retry, None, &None, 0, now, now).0 {
        Scheduled::Sleep(_, resting) => resting,
        Scheduled::Done(_) => panic!("there is time"),
    };
    let (attempt, running) = resting.resume(None, &None, now, now).0.unwrap().begin(now);
    assert_eq!(attempt.number(), 2);
    let (e, _) = running.reject(None, &None, now);
    assert_eq!(e.context().attempts, 1, "one attempt was made before");
}

#[test]
fn a_deadline_found_passed_after_the_wait_is_given_up() {
    let (seen, hook) = recorder();
    let mut p: Rig<u32, &str> = Rig::new(
        ExecutionPolicyBuilder::new()
            .retry(Retry::fixed(Duration::from_secs(10)).max_attempts(3))
            .total_timeout(Duration::from_secs(4))
            .on_event(hook),
    );
    let err = p.run(|_a, _c| completed(Err("x"))).unwrap_err();
    assert!(matches!(err, ExecutionError::TotalTimeout { .. }));
    assert_eq!(err.context().attempts, 1);
    assert_eq!(
        *seen.lock().unwrap(),
        vec![
            Event::AttemptFailed { attempt: 1 },
            Event::RetryScheduled { attempt: 1, delay: Duration::from_secs(4) },
            Event::GaveUp { attempts: 1 },
        ]
    );
}

#[test]
fn changes_of_the_breaker_and_its_probes_are_told() {
    let (seen, hook) = recorder();
    let hook = Some(execution_policy::event::hook(hook));
    let (mut rt, _) = CircuitBreaker::<u16>::consecutive_failures(1)
        .open_for(Duration::from_secs(5))
        .half_open_max_calls(2)
        .compile();
    let start = Instant::from_nanos(0);
    let enter = |rt: &mut execution_policy::breaker::BreakerRuntime, at: Instant| {
        Arrival::new(None, at).pass::<u16>(Some(rt), None, &hook, at, at).0.map(|_| ())
    };
    record(Vote::Failure, &mut rt, &hook, start);
    record(Vote::Failure, &mut rt, &hook, start); // it is open already
    let err = enter(&mut rt, start).unwrap_err();
    assert_eq!(err.context().breaker_state, BreakerState::Open);
    let later = start.saturating_add(Duration::from_secs(5));
    assert!(enter(&mut rt, later).is_ok());
    assert!(enter(&mut rt, later).is_ok()); // another probe
    let err = enter(&mut rt, later).unwrap_err();
    assert!(err.is_circuit_open());
    assert_eq!(err.context().breaker_state, BreakerState::HalfOpen);
    assert_eq!(
        *seen.lock().unwrap(),
        vec![
            Event::CircuitStateChanged { to: BreakerState::Open },
            Event::CircuitStateChanged { to: BreakerState::HalfOpen },
            Event::CircuitStateChanged { to: BreakerState::HalfOpen },
        ]
    );
}

#[test]
fn failures_tell_the_state_of_the_breaker_at_that_time() {
    let retry: Retry<u32, u16> = Retry::fixed(Duration::from_secs(1)).max_attempts(2);
    let (mut rt, _) = CircuitBreaker::<u16>::consecutive_failures(1)
        .open_for(Duration::from_secs(5))
        .compile();
    let start = Instant::from_nanos(0);
    let arrival = || Arrival::new(Some(Duration::from_secs(9)), start);
    let ready = arrival().pass::<u16>(Some(&mut rt), None, &None, start, start).0.unwrap();
    let (_, running) = ready.begin(start);
    // Another call opens the breaker while this one runs.
    rt.record_failure(start);
    let failed = match running.settle(&retry, Some(&rt), &None, completed(Err(1)), start).0 {
        Settled::Retry(failed) => failed,
        Settled::Done(_) => panic!("a retry is due"),
    };
    let mut empty = RetryBudget::new(Double::from_bits(0), 0);
    let err = match failed.charge(Some(&mut empty), Some(&rt), &None).0 {
        Err(e) => e,
        Ok(_) => panic!("nothing is left"),
    };
    assert_eq!(err.context().breaker_state, BreakerState::Open);
    // Once it has cooled it counts as half open.
    let (mut rt, _) = CircuitBreaker::<u16>::consecutive_failures(1)
        .open_for(Duration::from_secs(5))
        .compile();
    let ready = arrival().pass::<u16>(Some(&mut rt), None, &None, start, start).0.unwrap();
    let (_, running) = ready.begin(start);
    rt.record_failure(start);
    let later = start.saturating_add(Duration::from_secs(6));
    let stop: Retry<u32, u16> = Retry::none();
    let err = match running.settle(&stop, Some(&rt), &None, completed(Err(1)), later).0 {
        Settled::Done(Err(e)) => e,
        _ => panic!("the call is over"),
    };
    assert_eq!(err.context().breaker_state, BreakerState::HalfOpen);
}

#[test]
fn attempts_count_their_time_from_the_first() {
    let mut p = rig(Retry::fixed(Duration::from_secs(2)).max_attempts(3));
    let mut elapsed = Vec::new();
    let _ = p.run(|a, c| {
        elapsed.push(a.elapsed());
        c.clock.advance(Duration::from_secs(1));
        completed(Err("again"))
    });
    let secs = |n| Duration::from_secs(n);
    assert_eq!(elapsed, vec![secs(0), secs(3), secs(6)]);
    // A wait before the first attempt does not count.
    let start = Instant::from_nanos(0);
    let later = start.saturating_add(secs(4));
    let ready = Arrival::new(None, start).pass::<u16>(None, None, &None, later, later).0.unwrap();
    let (attempt, running) = ready.begin(later);
    assert_eq!(attempt.elapsed(), Duration::zero());
    // But it does count in the context of a failure.
    let (err, _) = running.reject(None, &None, later);
    assert_eq!(err.context().elapsed, secs(4));
}

#[test]
fn errors_that_are_final_are_not_given_up_on() {
    let (seen, hook) = recorder();
    let mut p: Rig<u32, &str> = Rig::new(
        ExecutionPolicyBuilder::new()
            .retry(Retry::fixed(Duration::zero()).max_attempts(3).when(|e: &&str| *e != "bad"))
            .on_event(hook),
    );
    let err = p.run(|_a, _c| completed(Err("bad"))).unwrap_err();
    assert_eq!(err.into_inner(), Some("bad"));
    assert_eq!(*seen.lock().unwrap(), vec![Event::AttemptFailed { attempt: 1 }]);
}

#[test]
fn equal_calls_run_alike() {
    let run = || {
        let (seen, hook) = recorder();
        let mut p: Rig<u32, &str> = Rig::new(
            ExecutionPolicyBuilder::new()
                .retry(Retry::exponential().max_attempts(4).budget(RetryBudget::standard()))
                .circuit_breaker(CircuitBreaker::consecutive_failures(2))
                .concurrency_limit(ConcurrencyLimit::attempts(2))
                .on_event(hook),
        );
        let mut numbers = Vec::new();
        let r = p.run(|a, _c| {
            numbers.push(a.number());
            completed(if a.number() < 3 { Err("again") } else { Ok(5) })
        });
        let told = seen.lock().unwrap().clone();
        let sem = &p.plan.concurrency.as_ref().unwrap().sem;
        assert_eq!((sem.free(), sem.queued()), (2, 0), "all permits are back");
        (r.unwrap(), numbers, told, p.slept, p.plan.circuit_state(p.core.now()))
    };
    assert_eq!(run(), run());
}

#[test]
fn no_hook_means_no_overhead_path() {
    let mut p = rig(Retry::none());
    assert_eq!(p.run(|_a, _c| completed(Ok(5))).unwrap(), 5);
    assert_eq!(p.events, vec![]);
}

#[test]
fn circuit_opens_and_rejects() {
    let mut p: Rig<u32, &str> = Rig::new(
        ExecutionPolicyBuilder::new().retry(Retry::none()).circuit_breaker(
            CircuitBreaker::consecutive_failures(2).open_for(Duration::from_secs(30)),
        ),
    );
    assert!(p.run(|_a, _c| completed(Err("x"))).is_err());
    assert!(p.run(|_a, _c| completed(Err("x"))).is_err());
    assert_eq!(p.plan.circuit_state(p.core.now()), Some(BreakerState::Open));
    assert!(p.plan.cooling_until(p.core.now()).is_some());

    let mut calls = 0;
    let err = p
        .run(|_a, _c| {
            calls += 1;
            completed(Ok(1))
        })
        .unwrap_err();
    assert!(err.is_circuit_open());
    assert_eq!(err.context().breaker_state, BreakerState::Open);
    assert_eq!(err.context().attempts, 0);
    assert_eq!(calls, 0, "operation must not run while open");
}

#[test]
fn circuit_half_opens_then_closes() {
    let (seen, hook) = recorder();
    let mut p: Rig<u32, &str> = Rig::new(
        ExecutionPolicyBuilder::new()
            .retry(Retry::none())
            .circuit_breaker(
                CircuitBreaker::consecutive_failures(1)
                    .open_for(Duration::from_secs(5))
                    .half_open_max_calls(1),
            )
            .on_event(hook),
    );
    assert!(p.run(|_a, _c| completed(Err("x"))).is_err());
    assert_eq!(p.plan.circuit_state(p.core.now()), Some(BreakerState::Open));
    p.core.clock.advance(Duration::from_secs(6)); // open_for elapses

    // Half-open probe succeeds: circuit closes.
    assert_eq!(p.run(|_a, _c| completed(Ok(7))).unwrap(), 7);
    assert_eq!(p.plan.circuit_state(p.core.now()), Some(BreakerState::Closed));
    assert_eq!(
        *seen.lock().unwrap(),
        vec![
            Event::AttemptFailed { attempt: 1 },
            Event::GaveUp { attempts: 1 },
            Event::CircuitStateChanged { to: BreakerState::Open },
            Event::CircuitStateChanged { to: BreakerState::HalfOpen },
            Event::Succeeded { attempts: 1 },
            Event::CircuitStateChanged { to: BreakerState::Closed },
        ]
    );
}

#[test]
fn concurrency_reject_sheds_load() {
    let (seen, hook) = recorder();
    let mut p: Rig<u32, &str> = Rig::new(
        ExecutionPolicyBuilder::new()
            .retry(Retry::none())
            .concurrency_limit(ConcurrencyLimit::operations(1).reject())
            .on_event(hook),
    );
    let occupied = p.permit(Scope::Operations).unwrap().expect("the only permit");
    p.held.push(occupied);
    let err = p.run(|_a, _c| completed(Ok(2))).unwrap_err();
    assert!(err.is_rejected(), "second call should be load-shed");
    assert_eq!(err.context().breaker_state, BreakerState::Disabled);
    assert_eq!(*seen.lock().unwrap(), vec![Event::ConcurrencyRejected]);
    let (rt, _) = CircuitBreaker::<u16>::consecutive_failures(1).compile();
    let (err, _) = Arrival::new(None, p.core.now()).reject::<u16>(Some(&rt), &None, p.core.now());
    assert_eq!(err.context().breaker_state, BreakerState::Closed);
    let p1 = p.held.pop();
    p.give_back(p1);
    assert_eq!(p.run(|_a, _c| completed(Ok(2))).unwrap(), 2);
}

#[test]
fn attempts_are_limited_one_by_one() {
    let mut p: Rig<u32, &str> = Rig::new(
        ExecutionPolicyBuilder::new()
            .retry(Retry::fixed(Duration::zero()).max_attempts(3))
            .concurrency_limit(ConcurrencyLimit::attempts(1).reject()),
    );
    // The permit is given back between attempts.
    let r = p.run(|a, _c| completed(if a.number() < 3 { Err("again") } else { Ok(3) }));
    assert_eq!(r.unwrap(), 3);
    let occupied = p.permit(Scope::Attempts).unwrap();
    let err = p.run(|_a, _c| completed(Ok(1))).unwrap_err();
    assert!(err.is_rejected());
    assert_eq!(err.context().attempts, 0, "the attempt was not made");
    p.give_back(occupied);
}

#[test]
fn retry_budget_caps_storms() {
    let (seen, hook) = recorder();
    // Budget allows a burst of exactly 1 retry, no replenishment.
    let budget = RetryBudget::new(Double::from_bits(0), 1);
    let mut p: Rig<u32, &str> = Rig::new(
        ExecutionPolicyBuilder::new()
            .retry(Retry::fixed(Duration::zero()).max_attempts(10).budget(budget))
            .on_event(hook),
    );
    let mut calls = 0;
    let err = p
        .run(|_a, _c| {
            calls += 1;
            completed(Err("always"))
        })
        .unwrap_err();
    // Attempt 1 (deposit), one retry token spent: attempt 2, then the budget is empty.
    assert_eq!(calls, 2, "budget bounded the storm");
    assert_eq!(err.context().attempts, 2);
    assert!(matches!(err, ExecutionError::RetryBudgetExhausted { .. }));
    assert!(seen.lock().unwrap().contains(&Event::RetryBudgetExhausted { attempts: 2 }));
}

#[test]
fn backoff_waits_on_the_virtual_clock() {
    let mut p = rig(
        Retry::exponential()
            .max_attempts(3)
            .base_delay(Duration::from_millis(100))
            .max_delay(Duration::from_secs(1)),
    );
    let start = p.core.now();
    let r = p.run(|a, _c| completed(if a.number() < 3 { Err("transient") } else { Ok(99) }));
    assert_eq!(r.unwrap(), 99);
    assert_eq!(p.slept, vec![Duration::from_millis(100), Duration::from_millis(200)]);
    assert_eq!(p.core.now().duration_since(start), Duration::from_millis(300));
}

#[test]
fn total_timeout_fires() {
    let mut p: Rig<u32, &str> = Rig::new(
        ExecutionPolicyBuilder::new()
            .retry(Retry::fixed(Duration::from_millis(50)).max_attempts(100))
            .total_timeout(Duration::from_millis(120)),
    );
    let err = p.run(|_a, _c| completed(Err("always"))).unwrap_err();
    assert!(matches!(err, ExecutionError::TotalTimeout { .. }), "got {err:?}");
    // The last wait is cut off at the deadline.
    assert_eq!(
        p.slept,
        vec![Duration::from_millis(50), Duration::from_millis(50), Duration::from_millis(20)]
    );
    assert_eq!(err.context().attempts, 3);
    assert_eq!(err.context().elapsed, Duration::from_millis(120));
    assert_eq!(err.context().last_delay, Some(Duration::from_millis(50)));
}

#[test]
fn when_predicate_stops_on_permanent() {
    let mut p: Rig<u32, i32> = Rig::new(
        ExecutionPolicyBuilder::new()
            .retry(Retry::fixed(Duration::zero()).max_attempts(5).when(|e: &i32| *e >= 500)),
    );
    let mut calls = 0;
    let r = p.run(|_a, _c| {
        calls += 1;
        completed(Err(404))
    });
    assert!(r.is_err());
    assert_eq!(calls, 1);
}

#[test]
fn values_can_be_retried_until_the_cap() {
    let retry = Retry::<u32, &str>::fixed(Duration::zero()).max_attempts(2).when_outcome(
        |o: &Result<u32, &str>| match o {
            Ok(503) => RetryDecision::Retry,
            _ => RetryDecision::Stop,
        },
    );
    let mut p = rig(retry);
    let mut calls = 0;
    let r = p.run(|_a, _c| {
        calls += 1;
        completed(Ok(503))
    });
    // The cap returns the value as it is.
    assert_eq!(r.unwrap(), 503);
    assert_eq!(calls, 2);
}

#[test]
fn attempt_timeouts_are_retried_and_then_reported() {
    let (seen, hook) = recorder();
    let mut p: Rig<u32, &str> = Rig::new(
        ExecutionPolicyBuilder::new()
            .retry(Retry::fixed(Duration::zero()).max_attempts(2))
            .on_event(hook),
    );
    let err = p.run(|_a, _c| AttemptOutcome::AttemptTimeout).unwrap_err();
    assert!(matches!(err, ExecutionError::AttemptTimeout { .. }));
    assert_eq!(
        *seen.lock().unwrap(),
        vec![
            Event::AttemptTimedOut { attempt: 1 },
            Event::RetryScheduled { attempt: 1, delay: Duration::zero() },
            Event::AttemptTimedOut { attempt: 2 },
            Event::GaveUp { attempts: 2 },
        ]
    );
}

#[test]
fn a_total_timeout_is_never_retried() {
    let mut p = rig(Retry::fixed(Duration::zero()).max_attempts(9));
    let err = p.run(|_a, _c| AttemptOutcome::TotalTimeout).unwrap_err();
    assert!(matches!(err, ExecutionError::TotalTimeout { .. }));
    assert_eq!(err.context().attempts, 1);
}

#[test]
fn no_retry_starts_after_max_elapsed() {
    let retry = || {
        Retry::<u32, &str>::fixed(Duration::zero())
            .max_attempts(9)
            .max_elapsed(Duration::from_secs(2))
    };
    let mut p = rig(retry());
    let err = p
        .run(|_a, c| {
            c.clock.advance(Duration::from_secs(1));
            completed(Err("slow"))
        })
        .unwrap_err();
    assert_eq!(err.context().attempts, 2);
    assert_eq!(err.into_inner(), Some("slow"));
    // Without an error of the operation it is a timeout.
    let mut p = rig(retry());
    let err = p
        .run(|_a, c| {
            c.clock.advance(Duration::from_secs(3));
            AttemptOutcome::AttemptTimeout
        })
        .unwrap_err();
    assert!(matches!(err, ExecutionError::AttemptTimeout { .. }));
}

fn context() -> Box<ErrorContext> {
    Box::new(ErrorContext {
        attempts: 4,
        elapsed: Duration::from_secs(1),
        last_delay: None,
        breaker_state: BreakerState::Closed,
    })
}

#[test]
fn calls_vote_once_on_what_the_operation_did() {
    let predicate = execution_policy::classify::ErrorPredicate::new(|e: &u16| *e >= 500);
    let when = Some(predicate);
    let operation = |e: u16| -> Result<(), ExecutionError<u16>> {
        Err(ExecutionError::Operation { source: e, context: context() })
    };
    assert_eq!(vote(&Ok::<(), ExecutionError<u16>>(()), &when), Vote::Success);
    assert_eq!(vote(&operation(503), &when), Vote::Failure);
    assert_eq!(vote(&operation(404), &when), Vote::Success);
    assert_eq!(vote(&operation(404), &None), Vote::Failure);
    let timeout: Result<(), ExecutionError<u16>> =
        Err(ExecutionError::AttemptTimeout { context: context() });
    assert_eq!(vote(&timeout, &when), Vote::Failure);
    let turned_away: Result<(), ExecutionError<u16>> =
        Err(ExecutionError::RetryBudgetExhausted { context: context() });
    assert_eq!(vote(&turned_away, &when), Vote::Abstain);

    let (mut rt, _) = CircuitBreaker::<u16>::consecutive_failures(1).compile();
    let now = Instant::from_nanos(0);
    assert_eq!(record(Vote::Abstain, &mut rt, &None, now), vec![]);
    assert_eq!(rt.state(), BreakerState::Closed);
    record(Vote::Failure, &mut rt, &None, now);
    assert_eq!(rt.state(), BreakerState::Open);
}

#[test]
fn a_fallback_recovers_or_keeps_the_context() {
    let (seen, hook) = recorder();
    let h = Some(execution_policy::event::hook(hook));
    let error = || ExecutionError::<&str>::CircuitOpen { context: context() };
    announce_fallback(&error(), &h);
    assert_eq!(*seen.lock().unwrap(), vec![Event::FallbackInvoked { attempts: 4 }]);
    assert_eq!(resolve_fallback::<u32, &str>(error(), Ok(9)).unwrap(), 9);
    let e = resolve_fallback::<u32, &str>(error(), Err("cache miss")).unwrap_err();
    assert_eq!(*e.context(), *context());
    assert_eq!(e.into_inner(), Some("cache miss"));
}

#[test]
fn results_count_before_timers() {
    assert!(matches!(
        race_attempt::<u32, u32>(Some(Ok(1)), true, true),
        Some(AttemptOutcome::Completed(Ok(1)))
    ));
    assert!(matches!(
        race_attempt::<u32, u32>(None, true, true),
        Some(AttemptOutcome::AttemptTimeout)
    ));
    assert!(matches!(
        race_attempt::<u32, u32>(None, false, true),
        Some(AttemptOutcome::TotalTimeout)
    ));
    assert!(race_attempt::<u32, u32>(None, false, false).is_none());
}

#[test]
fn try_build_reports_timeout_inversion() {
    let err = ExecutionPolicyBuilder::<u32, &str>::new()
        .attempt_timeout(Duration::from_secs(5))
        .total_timeout(Duration::from_secs(2))
        .validate();
    assert!(err.is_err());
    assert_eq!(
        err,
        Err(BuildError(Fault::TimeoutInversion {
            attempt: Duration::from_secs(5),
            total: Duration::from_secs(2),
        }))
    );
}

#[test]
fn no_attempts_are_refused() {
    let b = ExecutionPolicyBuilder::<u32, &str>::new()
        .retry(Retry::exponential().max_attempts(0));
    assert_eq!(b.validate(), Err(BuildError(Fault::ZeroAttempts)));
    let equal = ExecutionPolicyBuilder::<u32, &str>::new()
        .attempt_timeout(Duration::from_secs(2))
        .total_timeout(Duration::from_secs(2));
    assert_eq!(equal.validate(), Ok(()));
}

#[test]
fn senseless_breakers_and_queues_are_refused() {
    let double = |v: f64| Double::from_bits(v.to_bits());
    let with_breaker = |b: CircuitBreaker<&'static str>| {
        ExecutionPolicyBuilder::<u32, &str>::new().circuit_breaker(b).validate()
    };
    for bad in [0.0, -0.0, -0.5, 1.0 + f64::EPSILON, 7.0, f64::NAN, f64::INFINITY] {
        assert_eq!(
            with_breaker(CircuitBreaker::failure_ratio().ratio(double(bad))),
            Err(BuildError(Fault::FailureRatio { ratio: double(bad) }))
        );
    }
    for good in [f64::MIN_POSITIVE, 0.5, 1.0] {
        assert_eq!(with_breaker(CircuitBreaker::failure_ratio().ratio(double(good))), Ok(()));
    }
    assert_eq!(
        with_breaker(CircuitBreaker::failure_ratio().minimum_throughput(0)),
        Err(BuildError(Fault::ZeroThroughput))
    );
    // A breaker that counts failures in a row has neither.
    let in_a_row = CircuitBreaker::consecutive_failures(1).ratio(double(7.0)).minimum_throughput(0);
    assert_eq!(with_breaker(in_a_row), Ok(()));
    let with_limit = |l: ConcurrencyLimit| {
        ExecutionPolicyBuilder::<u32, &str>::new().concurrency_limit(l).validate()
    };
    assert_eq!(
        with_limit(ConcurrencyLimit::operations(1).max_queued(0)),
        Err(BuildError(Fault::ZeroQueue))
    );
    assert_eq!(with_limit(ConcurrencyLimit::operations(1).max_queued(1)), Ok(()));
    assert_eq!(with_limit(ConcurrencyLimit::operations(1).reject().max_queued(0)), Ok(()));
}

#[test]
fn without_a_retry_policy_there_is_one_attempt() {
    let mut p: Rig<u32, &str> = Rig::new(ExecutionPolicyBuilder::new());
    let err = p.run(|_a, _c| completed(Err("once"))).unwrap_err();
    assert_eq!(err.context().attempts, 1);
    assert_eq!(p.plan.circuit_state(p.core.now()), None);
    assert_eq!(p.plan.cooling_until(p.core.now()), None);
}

#[test]
fn a_policy_tells_the_state_of_its_breaker() {
    let policy: ExecutionPolicy<VirtualCore, u32, &str, u32> =
        ExecutionPolicy::<VirtualCore, u32, &str, u32>::builder()
            .circuit_breaker(CircuitBreaker::consecutive_failures(1))
            .try_build(TestCore::new(ManualClock::new()))
            .unwrap();
    assert_eq!(policy.circuit_state(), Some(BreakerState::Closed));
    assert_eq!(policy.cooling_until(), None);
    // It goes by the clock of its core.
    let (mut core, mut plan) = policy.into_parts();
    plan.breaker.as_mut().unwrap().runtime.record_failure(core.now());
    let end = core.now().saturating_add(Duration::from_secs(30));
    core.clock.advance(Duration::from_secs(29));
    let policy = ExecutionPolicy::from_parts(core, plan);
    assert_eq!(policy.circuit_state(), Some(BreakerState::Open));
    assert_eq!(policy.cooling_until(), Some(end));
    let (mut core, plan) = policy.into_parts();
    core.clock.advance(Duration::from_secs(1));
    let policy = ExecutionPolicy::from_parts(core, plan);
    assert_eq!(policy.circuit_state(), Some(BreakerState::HalfOpen));
    assert_eq!(policy.cooling_until(), None);
}
