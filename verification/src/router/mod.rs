//! Routing over several members, each with a breaker of its own.
//!
//! The router takes the healthy members one after the other, each time the one that its
//! [`Pick`] strategy scores least, and goes on to the next only on a failure that is
//! classified as transient. Ordered failover and load balancing are the same router with
//! different strategies. It neither waits nor enforces its deadline: where all members
//! are cooling it says until when, and the caller decides.

pub mod builder;
pub mod laws;
pub mod sample;

pub use builder::{RouterBuildError, RouterPolicyBuilder};

use vstd::prelude::*;

use crate::classify::ErrorPredicate;
use crate::double::Double;
use crate::error::ExecutionError;
use crate::health::{sooner, Health};
use crate::meter::Meter;
use crate::pick::{Candidate, Pick};
use crate::router::sample::sample_distinct;
use crate::runtime::Core;
use crate::time::{Duration, Instant};

verus! {

/// A value, the member that served it, and how many members were attempted.
#[derive(Debug, Clone)]
pub struct Served<Id, T> {
    pub value: T,
    pub target: Id,
    pub attempts: u32,
}

/// How a router fails.
#[derive(Debug)]
pub enum RouterError<Id, E> {
    /// The breaker of every member is open, and nothing was attempted.
    /// `next_available_at` is the soonest that one stops cooling.
    AllUnavailable { next_available_at: Option<Instant> },
    /// Members were attempted and none served; carries the last error of the operation.
    Exhausted(E),
    /// Members were attempted and none served, and none came to return an error of the
    /// operation: they timed out or turned the call away. `next_available_at` is the
    /// soonest that a member stops cooling that was open from the start.
    Unserved { attempts: u32, next_available_at: Option<Instant> },
    /// The score of a member is infinite or not a number.
    Score { id: Id, value: Double },
}

/// A registered member.
#[derive(Debug)]
pub struct Target<Id, H> {
    pub id: Id,
    /// Whatever runs the member's calls.
    pub handle: H,
    pub weight: Double,
}

/// Load of a member, as the router reads it before a choice.
#[derive(Debug, Clone, Copy)]
pub struct Load {
    pub in_flight: usize,
    pub pick_count: u64,
    /// The meter's reading, if there is one yet.
    pub reading: Option<Duration>,
}

/// A router over several members.
#[verifier::reject_recursive_types(Id)]
#[verifier::reject_recursive_types(E)]
pub struct RouterPolicy<Id, H, E> {
    targets: Vec<Target<Id, H>>,
    select: Pick<Id>,
    meter: Option<Meter>,
    advance_when: ErrorPredicate<E>,
    deadline: Duration,
}

/// What a router is configured to do.
#[verifier::reject_recursive_types(Id)]
#[verifier::reject_recursive_types(H)]
#[verifier::reject_recursive_types(E)]
pub ghost struct RouterModel<Id, H, E> {
    pub targets: Seq<Target<Id, H>>,
    pub select: Pick<Id>,
    pub meter: Option<Meter>,
    pub advance_when: ErrorPredicate<E>,
    pub deadline: Duration,
}

/// A member and its score, told by the order of registration.
pub type Scored = (usize, Double);

/// `a` is chosen rather than `b`: it has the lower score, or the same and was registered
/// first.
pub open spec fn beats(a: Scored, b: Scored) -> bool {
    a.1.rank() < b.1.rank() || (a.1.rank() == b.1.rank() && a.0 < b.0)
}

/// None of `scored` is chosen rather than the one at `i`.
pub open spec fn is_least(scored: Seq<Scored>, i: int) -> bool {
    &&& 0 <= i < scored.len()
    &&& forall|j: int| 0 <= j < scored.len() ==> !beats(#[trigger] scored[j], scored[i])
}

/// The place of the least.
pub fn least(scored: &Vec<Scored>) -> (i: usize)
    requires
        scored@.len() > 0,
    ensures
        is_least(scored@, i as int),
{
    let mut best: usize = 0;
    let mut i: usize = 1;
    while i < scored.len()
        invariant
            best < i <= scored@.len(),
            forall|j: int| 0 <= j < i ==> !beats(#[trigger] scored@[j], scored@[best as int]),
        decreases scored@.len() - i,
    {
        let (index, score) = scored[i];
        let (best_index, best_score) = scored[best];
        if score.precedes(best_score) || (!best_score.precedes(score) && index < best_index) {
            best = i;
        }
        i = i + 1;
    }
    best
}

/// Which of `n` candidates are scored where `draws` were drawn: so many as the sample asks
/// for, one for each number, or all of them in order, and then no number is drawn.
pub open spec fn drawn(
    sample: Option<usize>,
    n: nat,
    draws: Seq<u64>,
    positions: Seq<usize>,
) -> bool {
    if sample matches Some(k) && k < n {
        &&& draws.len() == sample->0
        &&& positions == sample::shuffled(n, draws, draws.len()).take(draws.len() as int)
    } else {
        &&& draws.len() == 0
        &&& positions == sample::in_order(n)
    }
}

impl<Id: Clone, H, E> RouterModel<Id, H, E> {
    /// Candidate `p` of the healthy members.
    pub open spec fn candidate(&self, healthy: Seq<usize>, loads: Seq<Load>, p: int) -> Candidate<
        '_,
        Id,
    > {
        let target = self.targets[healthy[p] as int];
        Candidate {
            id: &target.id,
            index: healthy[p],
            in_flight: loads[p].in_flight,
            weight: target.weight,
            pick_count: loads[p].pick_count,
            latency: if self.meter is Some {
                Some(
                    match loads[p].reading {
                        Some(d) => d,
                        None => Duration { nanos: 0 },
                    },
                )
            } else {
                None
            },
        }
    }

    /// The scores given to the candidates at `positions`, as far as they were scored.
    pub open spec fn scored(
        &self,
        healthy: Seq<usize>,
        loads: Seq<Load>,
        positions: Seq<usize>,
        scores: Seq<Double>,
    ) -> bool {
        &&& scores.len() <= positions.len()
        &&& forall|i: int|
            0 <= i < scores.len() ==> self.select.scores(
                self.candidate(healthy, loads, positions[i] as int),
                #[trigger] scores[i],
            )
    }

    /// `r` is the choice among the healthy members at `positions`, which were scored as
    /// `scores` says. Scoring stops at a score that is not finite, which is reported;
    /// otherwise the least of all is chosen.
    pub open spec fn chooses(
        &self,
        healthy: Seq<usize>,
        loads: Seq<Load>,
        positions: Seq<usize>,
        scores: Seq<Double>,
        r: Result<usize, RouterError<Id, E>>,
    ) -> bool {
        let last = scores.len() - 1;
        let entries = Seq::new(
            scores.len(),
            |i: int| (healthy[positions[i] as int], scores[i]),
        );
        &&& self.scored(healthy, loads, positions, scores)
        &&& scores.len() > 0
        &&& forall|i: int| 0 <= i < last ==> (#[trigger] scores[i]).finite()
        &&& match r {
            Ok(chosen) => {
                &&& scores[last].finite()
                &&& scores.len() == positions.len()
                &&& exists|i: int| #[trigger] is_least(entries, i) && entries[i].0 == chosen
            },
            Err(RouterError::Score { id, value }) => {
                &&& !scores[last].finite()
                &&& value == scores[last]
                &&& cloned(self.targets[healthy[positions[last] as int] as int].id, id)
            },
            Err(_) => false,
        }
    }
}

impl<Id: Clone, H, E> RouterModel<Id, H, E> {
    /// `r` may be the choice among the healthy members on the numbers that a core gives
    /// on the way from `before` to `after`.
    pub open spec fn chooses_on<C: Core>(
        &self,
        healthy: Seq<usize>,
        loads: Seq<Load>,
        before: C,
        after: C,
        r: Result<usize, RouterError<Id, E>>,
    ) -> bool {
        exists|draws: Seq<u64>, positions: Seq<usize>, scores: Seq<Double>|
            {
                &&& crate::runtime::drew_all(before, after, draws)
                &&& #[trigger] drawn(self.select.spec_sample(), healthy.len(), draws, positions)
                &&& #[trigger] self.chooses(healthy, loads, positions, scores, r)
            }
    }
}

impl<Id, H, E> View for RouterPolicy<Id, H, E> {
    type V = RouterModel<Id, H, E>;

    closed spec fn view(&self) -> RouterModel<Id, H, E> {
        RouterModel {
            targets: self.targets@,
            select: self.select,
            meter: self.meter,
            advance_when: self.advance_when,
            deadline: self.deadline,
        }
    }
}

impl<Id, H, E> RouterPolicy<Id, H, E> {
    #[verifier::type_invariant]
    spec fn usable(self) -> bool {
        &&& self.targets@.len() > 0
        &&& self.select.spec_sample() != Some(0usize)
        &&& self.select.spec_requires_meter() ==> self.meter is Some
    }

    /// A router of the given parts.
    pub(crate) fn from_parts(
        targets: Vec<Target<Id, H>>,
        select: Pick<Id>,
        meter: Option<Meter>,
        advance_when: ErrorPredicate<E>,
        deadline: Duration,
    ) -> (router: Self)
        requires
            targets@.len() > 0,
            select.spec_sample() != Some(0usize),
            select.spec_requires_meter() ==> meter is Some,
        ensures
            router@ == (RouterModel { targets: targets@, select, meter, advance_when, deadline }),
    {
        RouterPolicy { targets, select, meter, advance_when, deadline }
    }

    /// The budget for all members together. The router does not enforce it; the caller
    /// reads it where it decides whether to wait.
    pub fn deadline(&self) -> (d: Duration)
        ensures
            d == self@.deadline,
    {
        self.deadline
    }

    pub fn targets(&self) -> (t: &Vec<Target<Id, H>>)
        ensures
            t@ == self@.targets,
    {
        &self.targets
    }

    /// The meter, if there is one.
    pub fn meter(&self) -> (m: &Option<Meter>)
        ensures
            *m == self@.meter,
    {
        &self.meter
    }
}

impl<Id: Clone, H, E> RouterPolicy<Id, H, E> {
    /// Choose one of the healthy members at `positions`; `loads` tells the load of each
    /// healthy member.
    pub fn choose_among(
        &self,
        healthy: &Vec<usize>,
        loads: &Vec<Load>,
        positions: &Vec<usize>,
    ) -> (r: Result<usize, RouterError<Id, E>>)
        requires
            loads@.len() == healthy@.len(),
            forall|p: int|
                0 <= p < healthy@.len() ==> (#[trigger] healthy@[p]) < self@.targets.len(),
            positions@.len() > 0,
            forall|k: int|
                0 <= k < positions@.len() ==> (#[trigger] positions@[k]) < healthy@.len(),
        ensures
            exists|scores: Seq<Double>| #[trigger]
                self@.chooses(healthy@, loads@, positions@, scores, r),
            r matches Ok(chosen) ==> healthy@.contains(chosen),
    {
        proof {
            use_type_invariant(self);
        }
        let mut scored: Vec<Scored> = Vec::new();
        let ghost mut scores: Seq<Double> = Seq::empty();
        let mut i: usize = 0;
        while i < positions.len()
            invariant
                i <= positions@.len(),
                loads@.len() == healthy@.len(),
                forall|p: int|
                    0 <= p < healthy@.len() ==> (#[trigger] healthy@[p]) < self@.targets.len(),
                forall|k: int|
                    0 <= k < positions@.len() ==> (#[trigger] positions@[k]) < healthy@.len(),
                self@.select.spec_requires_meter() ==> self@.meter is Some,
                scores.len() == i,
                scored@.len() == i,
                forall|k: int|
                    0 <= k < i ==> #[trigger] scored@[k] == (
                        healthy@[positions@[k] as int],
                        scores[k],
                    ),
                forall|k: int| 0 <= k < i ==> (#[trigger] scores[k]).finite(),
                self@.scored(healthy@, loads@, positions@, scores),
            decreases positions@.len() - i,
        {
            let p: usize = positions[i];
            let index: usize = healthy[p];
            let load: Load = loads[p];
            let target = &self.targets[index];
            let candidate = Candidate {
                id: &target.id,
                index,
                in_flight: load.in_flight,
                weight: target.weight,
                pick_count: load.pick_count,
                latency: match &self.meter {
                    Some(_) => Some(
                        match load.reading {
                            Some(d) => d,
                            None => Duration::zero(),
                        },
                    ),
                    None => None,
                },
            };
            let score = self.select.score(&candidate);
            let ghost before = scores;
            proof {
                scores = scores.push(score);
                assert(self@.candidate(healthy@, loads@, p as int) == candidate);
                assert forall|k: int| 0 <= k < scores.len() implies self@.select.scores(
                    self@.candidate(healthy@, loads@, positions@[k] as int),
                    #[trigger] scores[k],
                ) by {
                    if k < before.len() {
                        assert(scores[k] == before[k]);
                    }
                }
            }
            if !score.is_finite() {
                let r = Err(RouterError::Score { id: target.id.clone(), value: score });
                assert(self@.chooses(healthy@, loads@, positions@, scores, r));
                return r;
            }
            scored.push((index, score));
            i = i + 1;
        }
        let best: usize = least(&scored);
        let chosen: usize = scored[best].0;
        proof {
            let entries = Seq::new(
                scores.len(),
                |k: int| (healthy@[positions@[k] as int], scores[k]),
            );
            assert(entries =~= scored@);
            assert(is_least(entries, best as int));
            assert(healthy@[positions@[best as int] as int] == chosen);
            let r: Result<usize, RouterError<Id, E>> = Ok(chosen);
            assert(self@.chooses(healthy@, loads@, positions@, scores, r));
        }
        Ok(chosen)
    }

    /// Choose one of the healthy members; `loads` tells the load of each of them. Where
    /// the strategy scores a sample, `core` draws it.
    pub fn choose_member<C: Core>(
        &self,
        healthy: &Vec<usize>,
        loads: &Vec<Load>,
        core: &mut C,
    ) -> (r: Result<usize, RouterError<Id, E>>)
        requires
            healthy@.len() > 0,
            loads@.len() == healthy@.len(),
            forall|p: int|
                0 <= p < healthy@.len() ==> (#[trigger] healthy@[p]) < self@.targets.len(),
        ensures
            self@.chooses_on(healthy@, loads@, *old(core), *final(core), r),
            !(self@.select.spec_sample() matches Some(k) && k < healthy@.len()) ==> *final(core)
                == *old(core),
            r matches Ok(chosen) ==> healthy@.contains(chosen),
    {
        proof {
            use_type_invariant(self);
        }
        let n: usize = healthy.len();
        let ghost before = *core;
        let sample = self.select.sample();
        let positions: Vec<usize> = match sample {
            Some(k) => if k < n {
                sample_distinct(n, k, core)
            } else {
                all_positions(n)
            },
            None => all_positions(n),
        };
        proof {
            let few = sample matches Some(k) && k < n;
            let draws = if few {
                let k = sample->0 as nat;
                choose|draws: Seq<u64>|
                    {
                        &&& draws.len() == k
                        &&& crate::runtime::drew_all(before, *core, draws)
                        &&& positions@ == (#[trigger] sample::shuffled(n as nat, draws, k)).take(
                            k as int,
                        )
                    }
            } else {
                Seq::empty()
            };
            assert(crate::runtime::drew_all(before, *core, draws));
            assert(drawn(sample, healthy@.len(), draws, positions@));
        }
        self.choose_among(healthy, loads, &positions)
    }
}

/// The numbers below `n`, in order.
fn all_positions(n: usize) -> (v: Vec<usize>)
    ensures
        v@ == sample::in_order(n as nat),
{
    let mut v: Vec<usize> = Vec::new();
    let mut i: usize = 0;
    while i < n
        invariant
            i <= n,
            v@ =~= sample::in_order(i as nat),
        decreases n - i,
    {
        v.push(i);
        i = i + 1;
    }
    v
}

/// A run of the router: the members that are left to try, and what came of the others.
#[derive(Debug)]
pub struct Route<E> {
    /// Members that are left, in order of registration.
    pub healthy: Vec<usize>,
    /// How many members were attempted.
    pub attempts: u32,
    /// The soonest that a member stops cooling that was open from the start.
    pub soonest: Option<Instant>,
    /// The last error of the operation.
    pub last_err: Option<E>,
}

/// How an attempt leaves a run of the router.
#[derive(Debug)]
pub enum RouteStep<Id, T, E> {
    Done(Result<Served<Id, T>, RouterError<Id, E>>),
    /// Try another member.
    Next(Route<E>),
}

/// A member whose breaker is not open.
pub open spec fn fit(health: Seq<Health>) -> spec_fn(usize) -> bool {
    |i: usize| !health[i as int].open()
}

/// Members whose breaker is not open, in order of registration.
pub open spec fn healthy_members(health: Seq<Health>) -> Seq<usize> {
    sample::in_order(health.len()).filter(fit(health))
}

/// A member other than `chosen`.
pub open spec fn other_than(chosen: usize) -> spec_fn(usize) -> bool {
    |i: usize| i != chosen
}

/// The members that are left without `chosen`.
pub open spec fn others(healthy: Seq<usize>, chosen: usize) -> Seq<usize> {
    healthy.filter(other_than(chosen))
}

/// One more attempt, as far as they can be counted.
pub open spec fn counted_up(attempts: u32) -> u32 {
    if attempts < u32::MAX {
        (attempts + 1) as u32
    } else {
        u32::MAX
    }
}

impl<E> Route<E> {
    /// The last error of the operation, after a failure with `e`.
    pub open spec fn last_err_after(self, e: ExecutionError<E>) -> Option<E> {
        match e.spec_source() {
            Some(source) => Some(source),
            None => self.last_err,
        }
    }
}

impl<Id: Clone, H, E> RouterModel<Id, H, E> {
    /// `advance` may be the answer to whether the router goes on after a failure: the
    /// classifier's for an error of the operation, and yes for anything else.
    pub open spec fn advances(&self, e: ExecutionError<E>, advance: bool) -> bool {
        match e.spec_source() {
            Some(source) => self.advance_when.answers(source, advance),
            None => advance,
        }
    }

    /// `step` follows an attempt of member `chosen` that ended in `outcome`, where
    /// `advance` says whether the router goes on after a failure.
    pub open spec fn settles<T>(
        &self,
        route: Route<E>,
        chosen: usize,
        outcome: Result<T, ExecutionError<E>>,
        advance: bool,
        step: RouteStep<Id, T, E>,
    ) -> bool {
        let left = others(route.healthy@, chosen);
        match outcome {
            Ok(v) => step matches RouteStep::Done(Ok(served)) && served.value == v && cloned(
                self.targets[chosen as int].id,
                served.target,
            ) && served.attempts == counted_up(route.attempts),
            Err(e) => {
                let last_err = route.last_err_after(e);
                if !advance {
                    step == RouteStep::<Id, T, E>::Done(
                        Err(RouterError::Exhausted(e.spec_source()->0)),
                    )
                } else if left.len() > 0 {
                    step matches RouteStep::Next(next) && next.healthy@ == left && next.attempts
                        == counted_up(route.attempts) && next.soonest == route.soonest
                        && next.last_err == last_err
                } else {
                    step == RouteStep::<Id, T, E>::Done(
                        Err(
                            match last_err {
                                Some(source) => RouterError::Exhausted(source),
                                None => RouterError::Unserved {
                                    attempts: counted_up(route.attempts),
                                    next_available_at: route.soonest,
                                },
                            },
                        ),
                    )
                }
            },
        }
    }
}

impl<Id: Clone, H, E> RouterPolicy<Id, H, E> {
    /// Begin a run: `health` tells the health of each member. Where none is healthy there
    /// is nothing to run.
    pub fn survey(&self, health: &Vec<Health>) -> (r: Result<Route<E>, RouterError<Id, E>>)
        requires
            health@.len() == self@.targets.len(),
        ensures
            match r {
                Ok(route) => {
                    &&& healthy_members(health@).len() > 0
                    &&& route.healthy@ == healthy_members(health@)
                    &&& route.attempts == 0
                    &&& route.soonest == crate::health::soonest(health@)
                    &&& route.last_err is None
                },
                Err(e) => {
                    &&& healthy_members(health@).len() == 0
                    &&& e == (RouterError::AllUnavailable::<Id, E> {
                        next_available_at: crate::health::soonest(health@),
                    })
                },
            },
    {
        let mut healthy: Vec<usize> = Vec::new();
        let mut soonest: Option<Instant> = None;
        let mut i: usize = 0;
        let ghost all = sample::in_order(health@.len());
        proof {
            reveal(Seq::filter);
            assert(all.take(0) =~= Seq::empty());
            assert(health@.take(0) =~= Seq::empty());
        }
        while i < health.len()
            invariant
                i <= health@.len(),
                all == sample::in_order(health@.len()),
                healthy@ == all.take(i as int).filter(fit(health@)),
                soonest == crate::health::soonest(health@.take(i as int)),
            decreases health@.len() - i,
        {
            proof {
                reveal(Seq::filter);
                assert(all.take(i + 1).drop_last() =~= all.take(i as int));
                assert(all.take(i + 1).last() == i);
                assert(health@.take(i + 1).drop_last() =~= health@.take(i as int));
                assert(health@.take(i + 1).last() == health@[i as int]);
            }
            if health[i].is_open() {
                soonest = sooner(soonest, health[i].cooling_until);
            } else {
                healthy.push(i);
            }
            i = i + 1;
        }
        assert(all.take(i as int) =~= all);
        assert(health@.take(i as int) =~= health@);
        if healthy.len() == 0 {
            return Err(RouterError::AllUnavailable { next_available_at: soonest });
        }
        Ok(Route { healthy, attempts: 0, soonest, last_err: None })
    }

    /// Member `chosen` was attempted and returned `outcome`.
    pub fn settle<T>(
        &self,
        route: Route<E>,
        chosen: usize,
        outcome: Result<T, ExecutionError<E>>,
    ) -> (step: RouteStep<Id, T, E>)
        requires
            chosen < self@.targets.len(),
        ensures
            exists|advance: bool|
                {
                    &&& #[trigger] self@.settles(route, chosen, outcome, advance, step)
                    &&& outcome matches Err(e) ==> self@.advances(e, advance)
                },
    {
        let attempts: u32 = route.attempts.saturating_add(1);
        match outcome {
            Ok(value) => {
                let target = self.targets[chosen].id.clone();
                let step = RouteStep::Done(Ok(Served { value, target, attempts }));
                assert(self@.settles(route, chosen, outcome, true, step));
                step
            },
            Err(e) => {
                let advance = match e.source() {
                    Some(source) => self.advance_when.test(source),
                    None => true,
                };
                let ghost last_err = route.last_err_after(e);
                let own = e.into_inner();
                if !advance {
                    if let Some(source) = own {
                        let step = RouteStep::Done(Err(RouterError::Exhausted(source)));
                        assert(self@.settles(route, chosen, outcome, advance, step));
                        return step;
                    }
                }
                let soonest = route.soonest;
                let healthy = without(&route.healthy, chosen);
                let kept = match own {
                    Some(source) => Some(source),
                    None => route.last_err,
                };
                let step = if healthy.len() > 0 {
                    RouteStep::Next(Route { healthy, attempts, soonest, last_err: kept })
                } else {
                    RouteStep::Done(
                        Err(
                            match kept {
                                Some(source) => RouterError::Exhausted(source),
                                None => RouterError::Unserved {
                                    attempts,
                                    next_available_at: soonest,
                                },
                            },
                        ),
                    )
                };
                assert(self@.settles(route, chosen, outcome, advance, step));
                step
            },
        }
    }
}

/// The members that are left without `chosen`.
fn without(healthy: &Vec<usize>, chosen: usize) -> (left: Vec<usize>)
    ensures
        left@ == others(healthy@, chosen),
{
    let mut left: Vec<usize> = Vec::new();
    let mut i: usize = 0;
    proof {
        reveal(Seq::filter);
        assert(healthy@.take(0) =~= Seq::empty());
    }
    while i < healthy.len()
        invariant
            i <= healthy@.len(),
            left@ == healthy@.take(i as int).filter(other_than(chosen)),
        decreases healthy@.len() - i,
    {
        proof {
            reveal(Seq::filter);
            assert(healthy@.take(i + 1).drop_last() =~= healthy@.take(i as int));
            assert(healthy@.take(i + 1).last() == healthy@[i as int]);
        }
        if healthy[i] != chosen {
            left.push(healthy[i]);
        }
        i = i + 1;
    }
    assert(healthy@.take(i as int) =~= healthy@);
    left
}

} // verus!
