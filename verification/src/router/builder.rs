//! Configuration of a router.

use vstd::prelude::*;
use vstd::std_specs::cmp::PartialEqSpec;

use crate::classify::ErrorPredicate;
use crate::double::Double;
use crate::member::Member;
use crate::meter::Meter;
use crate::pick::Pick;
use crate::router::{RouterModel, RouterPolicy, Target};
use crate::time::Duration;

verus! {

/// Fluent configuration of a [`RouterPolicy`].
#[verifier::reject_recursive_types(Id)]
#[verifier::reject_recursive_types(E)]
pub struct RouterPolicyBuilder<Id, H, E> {
    targets: Vec<Target<Id, H>>,
    select: Pick<Id>,
    meter: Option<Meter>,
    advance_when: Option<ErrorPredicate<E>>,
    deadline: Duration,
}

/// What was configured so far.
#[verifier::reject_recursive_types(Id)]
#[verifier::reject_recursive_types(H)]
#[verifier::reject_recursive_types(E)]
#[verifier::ext_equal]
pub ghost struct RouterConfig<Id, H, E> {
    pub targets: Seq<Target<Id, H>>,
    pub select: Pick<Id>,
    pub meter: Option<Meter>,
    pub advance_when: Option<ErrorPredicate<E>>,
    pub deadline: Duration,
}

/// What is wrong with the configuration of a router.
#[derive(Debug, Clone, Copy, PartialEq, Eq)]
pub enum RouterBuildError {
    /// There is no member.
    NoTargets,
    /// The member registered at `index` has the id of an earlier one.
    DuplicateId { index: usize },
    /// The strategy scores a sample of none.
    EmptySample,
    /// The strategy reads a meter, and there is none.
    MeterRequired,
    /// It was not said which errors are transient.
    AdvanceWhenRequired,
}

impl<Id: PartialEq, H, E> RouterConfig<Id, H, E> {
    /// The member at `j` has the id of an earlier one.
    pub open spec fn duplicated(self, j: int) -> bool {
        exists|i: int|
            0 <= i < j && (#[trigger] self.targets[i]).id.eq_spec(&self.targets[j].id)
    }

    /// No two members have the same id.
    pub open spec fn unique(self) -> bool {
        forall|j: int| 0 <= j < self.targets.len() ==> !#[trigger] self.duplicated(j)
    }

    /// What `validate` answers.
    pub open spec fn judged(self, r: Result<(), RouterBuildError>) -> bool {
        let members = self.targets.len() > 0 && self.unique();
        let sampled = self.select.spec_sample() != Some(0usize);
        let metered = self.select.spec_requires_meter() ==> self.meter is Some;
        match r {
            Err(RouterBuildError::NoTargets) => self.targets.len() == 0,
            Err(RouterBuildError::DuplicateId { index }) => {
                &&& index < self.targets.len()
                &&& self.duplicated(index as int)
                &&& forall|j: int| 0 <= j < index ==> !#[trigger] self.duplicated(j)
            },
            Err(RouterBuildError::EmptySample) => members && !sampled,
            Err(RouterBuildError::MeterRequired) => members && sampled && !metered,
            Err(RouterBuildError::AdvanceWhenRequired) => members && sampled && metered
                && self.advance_when is None,
            Ok(_) => members && sampled && metered && self.advance_when is Some,
        }
    }

    /// What `validate` answers, as far as that can be told without comparing ids.
    pub open spec fn judged_but_for_ids(self, r: Result<(), RouterBuildError>) -> bool {
        let sampled = self.select.spec_sample() != Some(0usize);
        let metered = self.select.spec_requires_meter() ==> self.meter is Some;
        &&& self.targets.len() == 0 <==> r == Err::<(), RouterBuildError>(
            RouterBuildError::NoTargets,
        )
        &&& match r {
            Err(RouterBuildError::NoTargets) => true,
            Err(RouterBuildError::DuplicateId { index }) => 1 <= index < self.targets.len(),
            Err(RouterBuildError::EmptySample) => !sampled,
            Err(RouterBuildError::MeterRequired) => sampled && !metered,
            Err(RouterBuildError::AdvanceWhenRequired) => sampled && metered && self.advance_when
                is None,
            Ok(_) => sampled && metered && self.advance_when is Some,
        }
    }
}

impl<Id, H, E> View for RouterPolicyBuilder<Id, H, E> {
    type V = RouterConfig<Id, H, E>;

    closed spec fn view(&self) -> RouterConfig<Id, H, E> {
        RouterConfig {
            targets: self.targets@,
            select: self.select,
            meter: self.meter,
            advance_when: self.advance_when,
            deadline: self.deadline,
        }
    }
}

impl<Id, H, E> RouterPolicy<Id, H, E> {
    /// Start configuring a router: ordered failover over no members, with a deadline of
    /// one hour.
    pub fn builder() -> (b: RouterPolicyBuilder<Id, H, E>)
        ensures
            b@.targets == Seq::<Target<Id, H>>::empty(),
            b@.select.spec_sample() is None,
            !b@.select.spec_requires_meter(),
            forall|c: crate::pick::Candidate<'_, Id>, s: Double| #[trigger]
                b@.select.scores(c, s) ==> s.bits == crate::double::count_bits(c.index as nat),
            b@.meter is None,
            b@.advance_when is None,
            b@.deadline.nanos == 3_600_000_000_000,
    {
        RouterPolicyBuilder {
            targets: Vec::new(),
            select: Pick::first_healthy(),
            meter: None,
            advance_when: None,
            deadline: Duration::from_secs(3600),
        }
    }
}

impl<Id, H, E> RouterPolicyBuilder<Id, H, E> {
    /// Register a member.
    pub fn target(self, m: Member<Id, H>) -> (b: Self)
        ensures
            b@ == (RouterConfig {
                targets: self@.targets.push(
                    Target { id: m.parts().0, handle: m.parts().1, weight: m.parts().2 },
                ),
                ..self@
            }),
    {
        let (id, handle, weight) = m.into_parts();
        let mut targets = self.targets;
        targets.push(Target { id, handle, weight });
        RouterPolicyBuilder { targets, ..self }
    }

    /// Set the selection strategy.
    pub fn select(self, pick: Pick<Id>) -> (b: Self)
        ensures
            b@ == (RouterConfig { select: pick, ..self@ }),
    {
        RouterPolicyBuilder { select: pick, ..self }
    }

    /// Attach a meter. Strategies that read latency need one.
    pub fn meter(self, m: Meter) -> (b: Self)
        ensures
            b@ == (RouterConfig { meter: Some(m), ..self@ }),
    {
        RouterPolicyBuilder { meter: Some(m), ..self }
    }

    /// Say which errors of the operation are transient. Any other is permanent and ends
    /// the run at once. There is no default.
    pub fn advance_when<F: Fn(&E) -> bool + Send + Sync + 'static>(self, f: F) -> (b: Self)
        requires
            forall|e: E| call_requires(f, (&e,)),
        ensures
            b@.advance_when is Some,
            forall|e: E, advance: bool| #[trigger]
                b@.advance_when->0.answers(e, advance) == call_ensures(f, (&e,), advance),
            b@ == (RouterConfig { advance_when: b@.advance_when, ..self@ }),
    {
        RouterPolicyBuilder { advance_when: Some(ErrorPredicate::new(f)), ..self }
    }

    /// Set the budget for all members together.
    pub fn deadline(self, d: Duration) -> (b: Self)
        ensures
            b@ == (RouterConfig { deadline: d, ..self@ }),
    {
        RouterPolicyBuilder { deadline: d, ..self }
    }
}

impl<Id: PartialEq, H, E> RouterPolicyBuilder<Id, H, E> {
    /// Whether a router can be built, and if not, the first thing that is wrong.
    pub fn validate(&self) -> (r: Result<(), RouterBuildError>)
        ensures
            Id::obeys_eq_spec() ==> self@.judged(r),
            self@.judged_but_for_ids(r),
    {
        if self.targets.len() == 0 {
            return Err(RouterBuildError::NoTargets);
        }
        let mut j: usize = 0;
        while j < self.targets.len()
            invariant
                j <= self.targets@.len(),
                Id::obeys_eq_spec() ==> forall|k: int|
                    0 <= k < j ==> !#[trigger] self@.duplicated(k),
            decreases self.targets@.len() - j,
        {
            let mut i: usize = 0;
            while i < j
                invariant
                    i <= j < self.targets@.len(),
                    Id::obeys_eq_spec() ==> forall|k: int|
                        0 <= k < j ==> !#[trigger] self@.duplicated(k),
                    Id::obeys_eq_spec() ==> forall|k: int|
                        0 <= k < i ==> !(#[trigger] self@.targets[k]).id.eq_spec(
                            &self@.targets[j as int].id,
                        ),
                decreases j - i,
            {
                if self.targets[i].id == self.targets[j].id {
                    assert(Id::obeys_eq_spec() ==> self@.targets[i as int].id.eq_spec(
                        &self@.targets[j as int].id,
                    ));
                    assert(Id::obeys_eq_spec() ==> self@.duplicated(j as int));
                    return Err(RouterBuildError::DuplicateId { index: j });
                }
                i = i + 1;
            }
            j = j + 1;
        }
        if !self.select.sample_is_valid() {
            return Err(RouterBuildError::EmptySample);
        }
        if self.select.requires_meter() && self.meter.is_none() {
            return Err(RouterBuildError::MeterRequired);
        }
        if self.advance_when.is_none() {
            return Err(RouterBuildError::AdvanceWhenRequired);
        }
        Ok(())
    }

    /// Build the router, or say what is wrong with its configuration.
    pub fn try_build(self) -> (r: Result<RouterPolicy<Id, H, E>, RouterBuildError>)
        ensures
            match r {
                Ok(router) => {
                    &&& Id::obeys_eq_spec() ==> self@.judged(Ok(()))
                    &&& self@.judged_but_for_ids(Ok(()))
                    &&& router@ == (RouterModel {
                        targets: self@.targets,
                        select: self@.select,
                        meter: self@.meter,
                        advance_when: self@.advance_when->0,
                        deadline: self@.deadline,
                    })
                },
                Err(e) => {
                    &&& Id::obeys_eq_spec() ==> self@.judged(Err(e))
                    &&& self@.judged_but_for_ids(Err(e))
                },
            },
    {
        match self.validate() {
            Err(e) => Err(e),
            Ok(_) => match self.advance_when {
                None => Err(RouterBuildError::AdvanceWhenRequired),
                Some(advance_when) => Ok(
                    RouterPolicy::from_parts(
                        self.targets,
                        self.select,
                        self.meter,
                        advance_when,
                        self.deadline,
                    ),
                ),
            },
        }
    }

    /// Build the router.
    pub fn build(self) -> (router: RouterPolicy<Id, H, E>)
        requires
            Id::obeys_eq_spec() ==> self@.unique(),
            self@.targets.len() > 0,
            self@.select.spec_sample() != Some(0usize),
            self@.select.spec_requires_meter() ==> self@.meter is Some,
            self@.advance_when is Some,
        ensures
            router@ == (RouterModel {
                targets: self@.targets,
                select: self@.select,
                meter: self@.meter,
                advance_when: self@.advance_when->0,
                deadline: self@.deadline,
            }),
    {
        RouterPolicy::from_parts(
            self.targets,
            self.select,
            self.meter,
            self.advance_when.unwrap(),
            self.deadline,
        )
    }
}

impl<Id: PartialEq, H, E> RouterConfig<Id, H, E> {
    /// A router can be built where it has a member, no two members share an id, its strategy
    /// scores at least one candidate and has the meter it reads, and it was said which errors
    /// are transient. Whatever is missing is named, and of several things the first in this
    /// order; of several ids that came before, the one registered first.
    pub proof fn law_sensible_routers_are_accepted(self, r: Result<(), RouterBuildError>)
        requires
            self.judged(r),
        ensures
            ({
                let shared = |i: int, j: int|
                    0 <= i < j < self.targets.len() && self.targets[i].id.eq_spec(
                        &self.targets[j].id,
                    );
                let none = self.targets.len() == 0;
                let twice = exists|i: int, j: int| #[trigger] shared(i, j);
                let empty = self.select.spec_sample() == Some(0usize);
                let unmetered = self.select.spec_requires_meter() && self.meter is None;
                let unsaid = self.advance_when is None;
                &&& (r is Ok) == !(none || twice || empty || unmetered || unsaid)
                &&& r matches Err(e) ==> {
                    &&& (e is NoTargets) == none
                    &&& (e is DuplicateId) == twice
                    &&& (e is EmptySample) == (!none && !twice && empty)
                    &&& (e is MeterRequired) == (!none && !twice && !empty && unmetered)
                    &&& (e is AdvanceWhenRequired) == (!none && !twice && !empty && !unmetered
                        && unsaid)
                }
                &&& r matches Err(RouterBuildError::DuplicateId { index }) ==> {
                    &&& exists|i: int| #[trigger] shared(i, index as int)
                    &&& forall|i: int, j: int| #[trigger] shared(i, j) ==> index <= j
                }
            }),
    {
        let shared = |i: int, j: int|
            0 <= i < j < self.targets.len() && self.targets[i].id.eq_spec(&self.targets[j].id);
        assert forall|i: int, j: int| #[trigger] shared(i, j) implies self.duplicated(j) by {
            assert(self.targets[i].id.eq_spec(&self.targets[j].id));
        }
        assert forall|j: int| #[trigger]
            self.duplicated(j) && 0 <= j < self.targets.len() implies exists|i: int| #[trigger]
            shared(i, j) by {
            let i = choose|i: int|
                0 <= i < j && (#[trigger] self.targets[i]).id.eq_spec(&self.targets[j].id);
            assert(shared(i, j));
        }
        if let Err(RouterBuildError::DuplicateId { index }) = r {
            let i = choose|i: int| #[trigger] shared(i, index as int);
            assert(shared(i, index as int));
        }
        if !self.unique() {
            let j = choose|j: int|
                0 <= j < self.targets.len() && #[trigger] self.duplicated(j);
            let i = choose|i: int| #[trigger] shared(i, j);
            assert(shared(i, j));
        }
    }

    /// Where ids are not compared the answer is still that of the rest of the configuration,
    /// or that a later member has the id of an earlier one.
    pub proof fn law_the_rest_is_judged(self, r: Result<(), RouterBuildError>)
        requires
            self.judged_but_for_ids(r),
        ensures
            ({
                let none = self.targets.len() == 0;
                let empty = self.select.spec_sample() == Some(0usize);
                let unmetered = self.select.spec_requires_meter() && self.meter is None;
                let unsaid = self.advance_when is None;
                &&& r is Ok ==> !(none || empty || unmetered || unsaid)
                &&& !(none || empty || unmetered || unsaid) ==> (r matches Err(e) ==> e
                    is DuplicateId)
                &&& r matches Err(e) ==> {
                    &&& (e is NoTargets) == none
                    &&& e is EmptySample ==> empty
                    &&& e is MeterRequired ==> !empty && unmetered
                    &&& e is AdvanceWhenRequired ==> !empty && !unmetered && unsaid
                }
                &&& r matches Err(RouterBuildError::DuplicateId { index }) ==> 0 < index
                    < self.targets.len()
            }),
    {
    }
}

/// A router has its members in the order in which they were added, each with its own weight,
/// and otherwise what was set last; one that was told nothing fails over in order and has an
/// hour.
pub proof fn law_routers_are_as_configured<Id: PartialEq, H, E>(
    first: Member<Id, H>,
    second: Member<Id, H>,
    pick: Pick<Id>,
    meter: Meter,
    d: Duration,
    blank: RouterPolicyBuilder<Id, H, E>,
    one: RouterPolicyBuilder<Id, H, E>,
    two: RouterPolicyBuilder<Id, H, E>,
    picking: RouterPolicyBuilder<Id, H, E>,
    metered: RouterPolicyBuilder<Id, H, E>,
    timed: RouterPolicyBuilder<Id, H, E>,
)
    requires
        call_ensures(RouterPolicy::<Id, H, E>::builder, (), blank),
        call_ensures(RouterPolicyBuilder::<Id, H, E>::target, (blank, first), one),
        call_ensures(RouterPolicyBuilder::<Id, H, E>::target, (one, second), two),
        call_ensures(RouterPolicyBuilder::<Id, H, E>::select, (two, pick), picking),
        call_ensures(RouterPolicyBuilder::<Id, H, E>::meter, (picking, meter), metered),
        call_ensures(RouterPolicyBuilder::<Id, H, E>::deadline, (metered, d), timed),
    ensures
        two@.deadline.nanos == 3_600_000_000_000,
        two@.select.spec_sample() is None,
        two@.meter is None,
        timed@.targets.len() == 2,
        timed@.targets[0].id == first.parts().0,
        timed@.targets[0].handle == first.parts().1,
        timed@.targets[0].weight == first.parts().2,
        timed@.targets[1].id == second.parts().0,
        timed@.targets[1].handle == second.parts().1,
        timed@.targets[1].weight == second.parts().2,
        timed@.select == pick,
        timed@.meter == Some(meter),
        timed@.deadline == d,
        forall|r: Result<RouterPolicy<Id, H, E>, RouterBuildError>| #[trigger]
            call_ensures(RouterPolicyBuilder::<Id, H, E>::try_build, (timed,), r) ==> (
            r matches Ok(router) ==> {
                &&& router@.targets == timed@.targets
                &&& router@.select == pick
                &&& router@.meter == Some(meter)
                &&& router@.deadline == d
            }),
{
}

} // verus!
