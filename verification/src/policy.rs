//! A reusable policy.

use vstd::prelude::*;

use crate::builder::ExecutionPolicyBuilder;
use crate::error::BreakerState;
use crate::plan::Plan;
use crate::runtime::Core;
use crate::time::Instant;

verus! {

/// A compiled policy and the core it runs on.
#[verifier::reject_recursive_types(C)]
#[verifier::reject_recursive_types(T)]
#[verifier::reject_recursive_types(E)]
#[verifier::reject_recursive_types(W)]
pub struct ExecutionPolicy<C, T, E, W> {
    core: C,
    plan: Plan<T, E, W>,
}

impl<C, T, E, W> ExecutionPolicy<C, T, E, W> {
    pub closed spec fn spec_core(&self) -> C {
        self.core
    }

    pub closed spec fn spec_plan(&self) -> Plan<T, E, W> {
        self.plan
    }

    pub fn from_parts(core: C, plan: Plan<T, E, W>) -> (p: Self)
        ensures
            p.spec_core() == core,
            p.spec_plan() == plan,
    {
        ExecutionPolicy { core, plan }
    }

    pub fn into_parts(self) -> (p: (C, Plan<T, E, W>))
        ensures
            p == (self.spec_core(), self.spec_plan()),
    {
        (self.core, self.plan)
    }
}

impl<C: Core, T, E, W> ExecutionPolicy<C, T, E, W> {
    /// Start configuring a policy.
    pub fn builder() -> (b: ExecutionPolicyBuilder<T, E>)
        ensures
            b == ExecutionPolicyBuilder::<T, E>::blank(),
    {
        ExecutionPolicyBuilder::new()
    }

    /// The state of the breaker as the clock stands; nothing where there is none.
    pub fn circuit_state(&self) -> (s: Option<BreakerState>)
        ensures
            exists|now: Instant| #[trigger]
                self.spec_core().shows(now) && s == self.spec_plan().health_at(now).state,
    {
        let now = self.core.now();
        let s = self.plan.circuit_state(now);
        assert(self.spec_core().shows(now) && s == self.spec_plan().health_at(now).state);
        s
    }

    /// When the breaker stops cooling, while it does as the clock stands.
    pub fn cooling_until(&self) -> (t: Option<Instant>)
        ensures
            exists|now: Instant| #[trigger]
                self.spec_core().shows(now) && t == self.spec_plan().health_at(now).cooling_until,
    {
        let now = self.core.now();
        let t = self.plan.cooling_until(now);
        assert(self.spec_core().shows(now) && t == self.spec_plan().health_at(now).cooling_until);
        t
    }
}

} // verus!
