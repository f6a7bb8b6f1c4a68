//! A compiled policy.

use vstd::prelude::*;

use crate::breaker::{BreakerRuntime, Latch};
use crate::classify::ErrorPredicate;
use crate::concurrency::{CompiledConcurrency, Scope};
use crate::error::BreakerState;
use crate::event::EventHook;
use crate::health::Health;
use crate::retry::Retry;
use crate::time::{Duration, Instant};

verus! {

/// A live breaker and the predicate on its faults.
#[verifier::reject_recursive_types(E)]
pub struct CompiledBreaker<E> {
    pub runtime: BreakerRuntime,
    pub record_when: Option<ErrorPredicate<E>>,
}

/// A compiled policy. `W` is what wakes a caller that waits for a permit.
#[verifier::reject_recursive_types(T)]
#[verifier::reject_recursive_types(E)]
#[verifier::reject_recursive_types(W)]
pub struct Plan<T, E, W> {
    pub retry: Retry<T, E>,
    pub attempt_timeout: Option<Duration>,
    pub total_timeout: Option<Duration>,
    pub breaker: Option<CompiledBreaker<E>>,
    pub concurrency: Option<CompiledConcurrency<W>>,
    pub on_event: Option<EventHook>,
}

impl<T, E, W> Plan<T, E, W> {
    /// What the breaker reports at `now`; nothing where there is none.
    pub open spec fn health_at(&self, now: Instant) -> Health {
        match self.breaker {
            Some(b) => Health {
                state: Some(b.runtime@.state_at(now)),
                cooling_until: b.runtime@.cooling_until(now),
            },
            None => Health { state: None, cooling_until: None },
        }
    }

    /// The state of the breaker at `now`.
    pub fn circuit_state(&self, now: Instant) -> (s: Option<BreakerState>)
        ensures
            s == self.health_at(now).state,
    {
        match &self.breaker {
            Some(b) => Some(b.runtime.state_at(now)),
            None => None,
        }
    }

    /// When the breaker stops cooling, while it does at `now`.
    pub fn cooling_until(&self, now: Instant) -> (t: Option<Instant>)
        ensures
            t == self.health_at(now).cooling_until,
    {
        match &self.breaker {
            Some(b) => b.runtime.cooling_until(now),
            None => None,
        }
    }

    /// Whether a permit is needed for each operation, or for each attempt.
    pub fn limits(&self, scope: Scope) -> (b: bool)
        ensures
            b == (self.concurrency matches Some(c) && c.scope == scope),
    {
        match &self.concurrency {
            Some(c) => c.scope == scope,
            None => false,
        }
    }
}

/// A policy reports the state of its breaker as it stands, and when it stops cooling while
/// it does; without a breaker there is nothing to report.
pub proof fn law_policies_report_their_breaker<T, E, W>(plan: Plan<T, E, W>, now: Instant)
    ensures
        plan.breaker is None ==> plan.health_at(now).state is None && plan.health_at(
            now,
        ).cooling_until is None,
        plan.breaker matches Some(b) ==> {
            let health = plan.health_at(now);
            match b.runtime@.latch {
                Latch::Closed => health.state == Some(BreakerState::Closed) && health.cooling_until
                    is None,
                Latch::HalfOpen { .. } => health.state == Some(BreakerState::HalfOpen)
                    && health.cooling_until is None,
                Latch::Open { until } => if now.nanos < until.nanos {
                    health.state == Some(BreakerState::Open) && health.cooling_until == Some(until)
                } else {
                    health.state == Some(BreakerState::HalfOpen) && health.cooling_until is None
                },
            }
        },
{
}

} // verus!
