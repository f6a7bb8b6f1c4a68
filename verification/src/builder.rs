//! Configuration of a policy.

use vstd::prelude::*;

use crate::breaker::{CircuitBreaker, TripRule};
use crate::concurrency::{ConcurrencyLimit, SaturationPolicy};
use crate::double::Double;
use crate::event::{hook, Event, EventHook};
use crate::plan::{CompiledBreaker, Plan};
use crate::policy::ExecutionPolicy;
use crate::retry::Retry;
use crate::runtime::Core;
use crate::time::Duration;

verus! {

/// Why a configuration is refused.
#[derive(Debug, Clone, Copy, PartialEq, Eq)]
pub enum Fault {
    /// Not even one attempt is allowed.
    ZeroAttempts,
    /// A single attempt may take longer than the whole call.
    TimeoutInversion { attempt: Duration, total: Duration },
    /// The share of failures that trips the breaker is not above zero and at most one.
    FailureRatio { ratio: Double },
    /// A share of no outcomes at all is to trip the breaker.
    ZeroThroughput,
    /// Callers are to wait in a queue that holds none.
    ZeroQueue,
}

/// A refused configuration.
#[derive(Debug, Clone, Copy, PartialEq, Eq)]
pub struct BuildError(pub Fault);

/// Fluent configuration of an [`ExecutionPolicy`].
#[verifier::reject_recursive_types(T)]
#[verifier::reject_recursive_types(E)]
pub struct ExecutionPolicyBuilder<T, E> {
    pub retry: Option<Retry<T, E>>,
    pub attempt_timeout: Option<Duration>,
    pub total_timeout: Option<Duration>,
    pub breaker: Option<CircuitBreaker<E>>,
    pub concurrency: Option<ConcurrencyLimit>,
    pub on_event: Option<EventHook>,
}

impl<T, E> Default for ExecutionPolicyBuilder<T, E> {
    fn default() -> (b: Self)
        ensures
            b == Self::blank(),
    {
        ExecutionPolicyBuilder {
            retry: None,
            attempt_timeout: None,
            total_timeout: None,
            breaker: None,
            concurrency: None,
            on_event: None,
        }
    }
}

impl<T, E> ExecutionPolicyBuilder<T, E> {
    /// Nothing is configured.
    pub open spec fn blank() -> Self {
        ExecutionPolicyBuilder {
            retry: None,
            attempt_timeout: None,
            total_timeout: None,
            breaker: None,
            concurrency: None,
            on_event: None,
        }
    }

    /// What is wrong with the timeouts.
    pub open spec fn timeout_fault(&self) -> Option<Fault> {
        match (self.attempt_timeout, self.total_timeout) {
            (Some(attempt), Some(total)) => if attempt.nanos > total.nanos {
                Some(Fault::TimeoutInversion { attempt, total })
            } else {
                None
            },
            _ => None,
        }
    }

    /// The first thing that is wrong with the breaker.
    pub open spec fn breaker_fault(&self) -> Option<Fault> {
        match self.breaker {
            Some(b) => match b@.trip {
                TripRule::FailureRatio { ratio, min_throughput, window: _ } => if !(0 < ratio.bits
                    <= crate::double::ONE) {
                    Some(Fault::FailureRatio { ratio })
                } else if min_throughput == 0 {
                    Some(Fault::ZeroThroughput)
                } else {
                    None
                },
                TripRule::Consecutive { .. } => None,
            },
            None => None,
        }
    }

    /// What is wrong with the concurrency limit.
    pub open spec fn queue_fault(&self) -> Option<Fault> {
        if self.concurrency matches Some(l) && l@.saturation matches SaturationPolicy::Wait {
            max_queued,
            queue_timeout: _,
        } && max_queued == 0 {
            Some(Fault::ZeroQueue)
        } else {
            None
        }
    }

    /// The first thing that is wrong with the configuration.
    pub open spec fn fault(&self) -> Option<Fault> {
        if self.retry matches Some(r) && r@.max_attempts == 0 {
            Some(Fault::ZeroAttempts)
        } else if self.timeout_fault() is Some {
            self.timeout_fault()
        } else if self.breaker_fault() is Some {
            self.breaker_fault()
        } else {
            self.queue_fault()
        }
    }

    /// `plan` does what is configured.
    pub open spec fn compiles_to<W>(&self, plan: Plan<T, E, W>) -> bool {
        &&& match self.retry {
            Some(r) => plan.retry == r,
            None => plan.retry@ == crate::retry::RetryModel::<T, E>::plain(
                1,
                crate::retry::Backoff::Fixed(Duration { nanos: 0 }),
            ),
        }
        &&& plan.attempt_timeout == self.attempt_timeout
        &&& plan.total_timeout == self.total_timeout
        &&& match (self.breaker, plan.breaker) {
            (Some(b), Some(c)) => {
                &&& c.runtime@ == crate::breaker::BreakerModel::closed(
                    b@.trip.spec_trip(),
                    b@.open_for,
                    b@.half_open_max_calls,
                )
                &&& c.runtime@.wf()
                &&& c.record_when == b@.record_when
            },
            (None, None) => true,
            _ => false,
        }
        &&& match (self.concurrency, plan.concurrency) {
            (Some(l), Some(c)) => {
                &&& c.sem@.wf()
                &&& c.sem@.free == l@.permits
                &&& c.sem@.capacity == l@.permits
                &&& c.sem@.queue.len() == 0
                &&& c.sem@.next_id == 0
                &&& c.scope == l@.scope
                &&& c.saturation == l@.saturation
            },
            (None, None) => true,
            _ => false,
        }
        &&& plan.on_event == self.on_event
    }

    pub fn new() -> (b: Self)
        ensures
            b == Self::blank(),
    {
        Self::default()
    }

    /// Set how to retry. Where this is set twice the last one wins, here as below.
    pub fn retry(self, retry: Retry<T, E>) -> (b: Self)
        ensures
            b == (ExecutionPolicyBuilder { retry: Some(retry), ..self }),
    {
        ExecutionPolicyBuilder { retry: Some(retry), ..self }
    }

    /// Set how long one attempt may take.
    pub fn attempt_timeout(self, d: Duration) -> (b: Self)
        ensures
            b == (ExecutionPolicyBuilder { attempt_timeout: Some(d), ..self }),
    {
        ExecutionPolicyBuilder { attempt_timeout: Some(d), ..self }
    }

    /// Set how long the whole call may take, waits included.
    pub fn total_timeout(self, d: Duration) -> (b: Self)
        ensures
            b == (ExecutionPolicyBuilder { total_timeout: Some(d), ..self }),
    {
        ExecutionPolicyBuilder { total_timeout: Some(d), ..self }
    }

    pub fn circuit_breaker(self, breaker: CircuitBreaker<E>) -> (b: Self)
        ensures
            b == (ExecutionPolicyBuilder { breaker: Some(breaker), ..self }),
    {
        ExecutionPolicyBuilder { breaker: Some(breaker), ..self }
    }

    /// Limit concurrent calls or attempts. A number alone limits calls: see the
    /// conversions of [`ConcurrencyLimit`].
    pub fn concurrency_limit(self, limit: ConcurrencyLimit) -> (b: Self)
        ensures
            b == (ExecutionPolicyBuilder { concurrency: Some(limit), ..self }),
    {
        ExecutionPolicyBuilder { concurrency: Some(limit), ..self }
    }

    /// Register a callback for events. It is called synchronously.
    pub fn on_event<F: Fn(&Event) + Send + Sync + 'static>(self, f: F) -> (b: Self)
        requires
            forall|event: Event| call_requires(f, (&event,)),
        ensures
            b.on_event is Some,
            forall|event: Event| #[trigger]
                b.on_event->0.observed(event) == call_ensures(f, (&event,), ()),
            b == (ExecutionPolicyBuilder { on_event: b.on_event, ..self }),
    {
        ExecutionPolicyBuilder { on_event: Some(hook(f)), ..self }
    }

    /// Whether a policy can be built, and if not, why.
    pub fn validate(&self) -> (r: Result<(), BuildError>)
        ensures
            r == (match self.fault() {
                Some(fault) => Err::<(), BuildError>(BuildError(fault)),
                None => Ok::<(), BuildError>(()),
            }),
    {
        if let Some(r) = &self.retry {
            if r.max_attempts_value() == 0 {
                return Err(BuildError(Fault::ZeroAttempts));
            }
        }
        if let (Some(attempt), Some(total)) = (self.attempt_timeout, self.total_timeout) {
            if attempt.nanos > total.nanos {
                return Err(BuildError(Fault::TimeoutInversion { attempt, total }));
            }
        }
        if let Some(b) = &self.breaker {
            if let TripRule::FailureRatio { ratio, min_throughput, window: _ } = b.rule() {
                if !ratio.is_share() {
                    return Err(BuildError(Fault::FailureRatio { ratio }));
                }
                if min_throughput == 0 {
                    return Err(BuildError(Fault::ZeroThroughput));
                }
            }
        }
        if let Some(l) = &self.concurrency {
            if let SaturationPolicy::Wait { max_queued, queue_timeout: _ } = l.saturation() {
                if max_queued == 0 {
                    return Err(BuildError(Fault::ZeroQueue));
                }
            }
        }
        Ok(())
    }

    /// Compile the configuration. Without a retry policy there is a single attempt.
    pub fn compile<W>(self) -> (plan: Plan<T, E, W>)
        ensures
            self.compiles_to(plan),
    {
        let breaker = match self.breaker {
            Some(b) => {
                let (runtime, record_when) = b.compile();
                Some(CompiledBreaker { runtime, record_when })
            },
            None => None,
        };
        let concurrency = match &self.concurrency {
            Some(l) => Some(l.compile()),
            None => None,
        };
        let retry = match self.retry {
            Some(r) => r,
            None => Retry::none(),
        };
        Plan {
            retry,
            attempt_timeout: self.attempt_timeout,
            total_timeout: self.total_timeout,
            breaker,
            concurrency,
            on_event: self.on_event,
        }
    }

    /// Build the policy on `core`.
    pub fn build_with<C: Core, W>(self, core: C) -> (p: ExecutionPolicy<C, T, E, W>)
        requires
            self.fault() is None,
        ensures
            p.spec_core() == core,
            self.compiles_to(p.spec_plan()),
    {
        ExecutionPolicy::from_parts(core, self.compile())
    }

    /// Build the policy on `core`, or say why it cannot be built.
    pub fn try_build<C: Core, W>(self, core: C) -> (r: Result<
        ExecutionPolicy<C, T, E, W>,
        BuildError,
    >)
        ensures
            match r {
                Ok(p) => self.fault() is None && p.spec_core() == core && self.compiles_to(
                    p.spec_plan(),
                ),
                Err(e) => self.fault() == Some(e.0),
            },
    {
        match self.validate() {
            Ok(_) => Ok(ExecutionPolicy::from_parts(core, self.compile())),
            Err(e) => Err(e),
        }
    }
}

/// A configuration is accepted exactly where every part of it makes sense: at least one
/// attempt, no attempt that may take longer than the call, a share of failures above zero and
/// at most one over at least one outcome, and a queue with room for a caller.
pub proof fn law_sensible_configurations_are_accepted<T, E>(b: ExecutionPolicyBuilder<T, E>)
    ensures
        b.fault() is None <==> {
            &&& b.retry matches Some(r) ==> r@.max_attempts >= 1
            &&& (b.attempt_timeout is Some && b.total_timeout is Some) ==> b.attempt_timeout->0.nanos
                <= b.total_timeout->0.nanos
            &&& b.breaker matches Some(c) ==> (c@.trip matches TripRule::FailureRatio {
                ratio,
                min_throughput,
                window: _,
            } ==> 0 < ratio.rank() <= (Double { bits: crate::double::ONE }).rank()
                && min_throughput >= 1)
            &&& b.concurrency matches Some(l) ==> (l@.saturation matches SaturationPolicy::Wait {
                max_queued,
                queue_timeout: _,
            } ==> max_queued >= 1)
        },
        b.fault() == Some(Fault::ZeroAttempts) ==> b.retry is Some && b.retry->0@.max_attempts
            == 0,
        b.fault() matches Some(Fault::TimeoutInversion { attempt, total }) ==> {
            &&& b.attempt_timeout == Some(attempt)
            &&& b.total_timeout == Some(total)
            &&& total.nanos < attempt.nanos
        },
        b.fault() matches Some(Fault::FailureRatio { ratio }) ==> (b.breaker is Some
            && b.breaker->0@.trip is FailureRatio && b.breaker->0@.trip->ratio == ratio),
{
}

/// A compiled policy does what was configured, part by part; without a retry policy it makes
/// a single attempt, and what was not configured is not there.
pub proof fn law_policies_do_what_is_configured<T, E, W>(
    b: ExecutionPolicyBuilder<T, E>,
    plan: Plan<T, E, W>,
)
    requires
        b.compiles_to(plan),
    ensures
        b.retry matches Some(r) ==> plan.retry == r,
        b.retry is None ==> plan.retry@.max_attempts == 1,
        plan.attempt_timeout == b.attempt_timeout,
        plan.total_timeout == b.total_timeout,
        plan.on_event == b.on_event,
        plan.breaker is Some == b.breaker is Some,
        plan.concurrency is Some == b.concurrency is Some,
        b.breaker matches Some(c) ==> {
            let runtime = plan.breaker->0.runtime@;
            &&& runtime.latch is Closed
            &&& runtime.open_for == c@.open_for
            &&& runtime.half_open_max_calls == c@.half_open_max_calls
            &&& plan.breaker->0.record_when == c@.record_when
            &&& c@.trip matches TripRule::Consecutive { threshold } ==> runtime.trip == (
            crate::breaker::Trip::Consecutive { threshold })
            &&& c@.trip matches TripRule::FailureRatio { ratio, min_throughput, window } ==> {
                &&& runtime.trip matches crate::breaker::Trip::FailureRatio {
                    ratio: r,
                    min_throughput: m,
                    window: w,
                } && m == min_throughput && w == window && r == crate::double::Ratio::of(ratio)
                &&& runtime.span == window
            }
        },
        b.concurrency matches Some(l) ==> {
            let limit = plan.concurrency->0;
            &&& limit.sem@.free == l@.permits
            &&& limit.sem@.capacity == l@.permits
            &&& limit.sem@.queue.len() == 0
            &&& limit.scope == l@.scope
            &&& limit.saturation == l@.saturation
        },
{
}

} // verus!
