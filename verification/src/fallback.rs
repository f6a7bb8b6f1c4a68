//! Ordered fallback over several targets.
//!
//! Targets are tried in the order of their registration. One whose breaker is open is
//! skipped; a transient failure leads to the next; a permanent error ends the run. The
//! deadline is not enforced here: where all targets are cooling the run says until when,
//! and the caller decides.

use vstd::prelude::*;

use crate::classify::ErrorPredicate;
use crate::error::ExecutionError;
use crate::health::{sooner, Health};
use crate::time::{Duration, Instant};

verus! {

/// A value, the target that served it, and how many targets were attempted.
#[derive(Debug)]
pub struct Served<T> {
    pub value: T,
    pub target: String,
    pub attempts: u32,
}

/// How a fallback run fails.
#[derive(Debug)]
pub enum FallbackError<E> {
    /// The breaker of every target is open, and nothing was attempted.
    /// `next_available_at` is the soonest that one stops cooling.
    AllUnavailable { next_available_at: Option<Instant> },
    /// Targets were attempted and none served; carries the last error of the operation.
    Exhausted(E),
    /// Targets were attempted and none served, and none came to return an error of the
    /// operation: they timed out or turned the call away. `next_available_at` is the
    /// soonest that a skipped target stops cooling.
    Unserved { attempts: u32, next_available_at: Option<Instant> },
}

/// How a target is chosen.
#[derive(Debug, Clone, Copy, PartialEq, Eq, Structural)]
pub enum Selection {
    /// The first one whose breaker is not open.
    FirstHealthy,
}

/// A registered target.
#[derive(Debug)]
pub struct Target<P> {
    pub id: String,
    /// Whatever runs the target's calls.
    pub policy: P,
}

/// A router over targets in a fixed order.
#[verifier::reject_recursive_types(E)]
pub struct FallbackPolicy<P, E> {
    targets: Vec<Target<P>>,
    selection: Selection,
    advance_when: ErrorPredicate<E>,
    deadline: Duration,
}

/// Fluent configuration of a [`FallbackPolicy`].
#[verifier::reject_recursive_types(E)]
pub struct FallbackPolicyBuilder<P, E> {
    targets: Vec<Target<P>>,
    selection: Selection,
    advance_when: Option<ErrorPredicate<E>>,
    deadline: Duration,
}

/// What was configured so far.
#[verifier::reject_recursive_types(P)]
#[verifier::reject_recursive_types(E)]
#[verifier::ext_equal]
pub ghost struct FallbackConfig<P, E> {
    pub targets: Seq<Target<P>>,
    pub selection: Selection,
    pub advance_when: Option<ErrorPredicate<E>>,
    pub deadline: Duration,
}

/// What a fallback policy is configured to do.
#[verifier::reject_recursive_types(P)]
#[verifier::reject_recursive_types(E)]
pub ghost struct FallbackModel<P, E> {
    pub targets: Seq<Target<P>>,
    pub selection: Selection,
    pub advance_when: ErrorPredicate<E>,
    pub deadline: Duration,
}

impl<P, E> View for FallbackPolicyBuilder<P, E> {
    type V = FallbackConfig<P, E>;

    closed spec fn view(&self) -> FallbackConfig<P, E> {
        FallbackConfig {
            targets: self.targets@,
            selection: self.selection,
            advance_when: self.advance_when,
            deadline: self.deadline,
        }
    }
}

impl<P, E> View for FallbackPolicy<P, E> {
    type V = FallbackModel<P, E>;

    closed spec fn view(&self) -> FallbackModel<P, E> {
        FallbackModel {
            targets: self.targets@,
            selection: self.selection,
            advance_when: self.advance_when,
            deadline: self.deadline,
        }
    }
}

impl<P, E> FallbackPolicy<P, E> {
    /// Start configuring: no targets, and a deadline of one hour.
    pub fn builder() -> (b: FallbackPolicyBuilder<P, E>)
        ensures
            b@ == (FallbackConfig::<P, E> {
                targets: Seq::empty(),
                selection: Selection::FirstHealthy,
                advance_when: None,
                deadline: Duration { nanos: 3_600_000_000_000 },
            }),
    {
        FallbackPolicyBuilder {
            targets: Vec::new(),
            selection: Selection::FirstHealthy,
            advance_when: None,
            deadline: Duration::from_secs(3600),
        }
    }

    pub fn selection(&self) -> (s: Selection)
        ensures
            s == self@.selection,
    {
        self.selection
    }

    /// The budget for all targets together. The policy does not enforce it; the caller
    /// reads it where it decides whether to wait.
    pub fn deadline(&self) -> (d: Duration)
        ensures
            d == self@.deadline,
    {
        self.deadline
    }

    pub fn targets(&self) -> (t: &Vec<Target<P>>)
        ensures
            t@ == self@.targets,
    {
        &self.targets
    }
}

impl<P, E> FallbackPolicyBuilder<P, E> {
    /// Add a target behind those that are there.
    pub fn target(self, id: String, policy: P) -> (b: Self)
        ensures
            b@ == (FallbackConfig {
                targets: self@.targets.push(Target { id, policy }),
                ..self@
            }),
    {
        let mut targets = self.targets;
        targets.push(Target { id, policy });
        FallbackPolicyBuilder { targets, ..self }
    }

    pub fn select(self, s: Selection) -> (b: Self)
        ensures
            b@ == (FallbackConfig { selection: s, ..self@ }),
    {
        FallbackPolicyBuilder { selection: s, ..self }
    }

    /// Say which errors of the operation are transient. Any other is permanent and ends
    /// the run at once. Without this every error is transient.
    pub fn advance_when<F: Fn(&E) -> bool + Send + Sync + 'static>(self, f: F) -> (b: Self)
        requires
            forall|e: E| call_requires(f, (&e,)),
        ensures
            b@.advance_when is Some,
            forall|e: E, advance: bool| #[trigger]
                b@.advance_when->0.answers(e, advance) == call_ensures(f, (&e,), advance),
            b@ == (FallbackConfig { advance_when: b@.advance_when, ..self@ }),
    {
        FallbackPolicyBuilder { advance_when: Some(ErrorPredicate::new(f)), ..self }
    }

    pub fn deadline(self, d: Duration) -> (b: Self)
        ensures
            b@ == (FallbackConfig { deadline: d, ..self@ }),
    {
        FallbackPolicyBuilder { deadline: d, ..self }
    }

    pub fn build(self) -> (p: FallbackPolicy<P, E>)
        ensures
            p@.targets == self@.targets,
            p@.selection == self@.selection,
            p@.deadline == self@.deadline,
            match self@.advance_when {
                Some(f) => p@.advance_when == f,
                None => forall|e: E, advance: bool| #[trigger]
                    p@.advance_when.answers(e, advance) ==> advance,
            },
    {
        let advance_when = match self.advance_when {
            Some(f) => f,
            None => ErrorPredicate::new(|_e: &E| -> (b: bool) ensures b { true }),
        };
        FallbackPolicy {
            targets: self.targets,
            selection: self.selection,
            advance_when,
            deadline: self.deadline,
        }
    }
}

/// A run down the targets: where it stands, and what came of the targets before.
#[derive(Debug)]
pub struct Chain<E> {
    /// The target to look at next, or their number at the end.
    pub next: usize,
    /// How many targets were attempted.
    pub attempts: u32,
    /// The soonest that a skipped target stops cooling.
    pub soonest: Option<Instant>,
    /// The last error of the operation.
    pub last_err: Option<E>,
}

/// How an attempt leaves a run.
#[derive(Debug)]
pub enum ChainStep<T, E> {
    Done(Result<Served<T>, FallbackError<E>>),
    /// Look at the next target.
    Next(Chain<E>),
}

impl<E> Chain<E> {
    /// The run past an open target.
    pub open spec fn past(self, health: Health) -> Chain<E> {
        Chain {
            next: (self.next + 1) as usize,
            soonest: crate::health::spec_sooner(self.soonest, health.cooling_until),
            ..self
        }
    }

    /// The run with one more attempt, as far as they can be counted.
    pub open spec fn trying(self) -> Chain<E> {
        Chain { attempts: crate::router::counted_up(self.attempts), ..self }
    }

    /// How the run ends where no target is left.
    pub open spec fn end(self) -> FallbackError<E> {
        match self.last_err {
            Some(e) => FallbackError::Exhausted(e),
            None => if self.attempts == 0 {
                FallbackError::AllUnavailable { next_available_at: self.soonest }
            } else {
                FallbackError::Unserved {
                    attempts: self.attempts,
                    next_available_at: self.soonest,
                }
            },
        }
    }

    /// No target is left: the run ends with the last error of the operation, or says
    /// whether there was an attempt and when a skipped target stops cooling.
    pub fn finish(self) -> (e: FallbackError<E>)
        ensures
            e == self.end(),
    {
        match self.last_err {
            Some(e) => FallbackError::Exhausted(e),
            None => if self.attempts == 0 {
                FallbackError::AllUnavailable { next_available_at: self.soonest }
            } else {
                FallbackError::Unserved {
                    attempts: self.attempts,
                    next_available_at: self.soonest,
                }
            },
        }
    }
}

impl<P, E> FallbackModel<P, E> {
    /// `advance` may be the answer to whether the run goes on after a failure: the
    /// classifier's for an error of the operation, and yes for anything else.
    pub open spec fn advances(self, e: ExecutionError<E>, advance: bool) -> bool {
        match e.spec_source() {
            Some(source) => self.advance_when.answers(source, advance),
            None => advance,
        }
    }

    /// `step` follows an attempt of the target that the run stands at, which ended in
    /// `outcome`, where `advance` says whether the run goes on after a failure.
    pub open spec fn settles<T>(
        self,
        chain: Chain<E>,
        outcome: Result<T, ExecutionError<E>>,
        advance: bool,
        step: ChainStep<T, E>,
    ) -> bool {
        match outcome {
            Ok(v) => step matches ChainStep::Done(Ok(served)) && served.value == v
                && served.target@ == self.targets[chain.next as int].id@ && served.attempts
                == chain.attempts,
            Err(e) => if !advance {
                step == ChainStep::<T, E>::Done(Err(FallbackError::Exhausted(e.spec_source()->0)))
            } else {
                step == ChainStep::<T, E>::Next(
                    Chain {
                        next: (chain.next + 1) as usize,
                        last_err: match e.spec_source() {
                            Some(source) => Some(source),
                            None => chain.last_err,
                        },
                        ..chain
                    },
                )
            },
        }
    }
}

impl<P, E> FallbackPolicy<P, E> {
    /// Begin a run at the first target.
    pub fn begin(&self) -> (c: Chain<E>)
        ensures
            c == (Chain::<E> { next: 0, attempts: 0, soonest: None, last_err: None }),
    {
        Chain { next: 0, attempts: 0, soonest: None, last_err: None }
    }

    /// Look at the target that the run stands at. Returns whether to attempt it; one whose
    /// breaker is open is skipped.
    pub fn visit(&self, chain: Chain<E>, health: Health) -> (r: (bool, Chain<E>))
        requires
            chain.next < self@.targets.len(),
        ensures
            r.0 == !health.open(),
            r.1 == (if health.open() {
                chain.past(health)
            } else {
                chain.trying()
            }),
    {
        if health.is_open() {
            let soonest = sooner(chain.soonest, health.cooling_until);
            assert(self.targets.len() <= usize::MAX);
            let next: usize = chain.next + 1;
            (false, Chain { next, soonest, ..chain })
        } else {
            let attempts: u32 = chain.attempts.saturating_add(1);
            (true, Chain { attempts, ..chain })
        }
    }

    /// The target that the run stands at was attempted and returned `outcome`.
    pub fn settle<T>(
        &self,
        chain: Chain<E>,
        outcome: Result<T, ExecutionError<E>>,
    ) -> (step: ChainStep<T, E>)
        requires
            chain.next < self@.targets.len(),
        ensures
            exists|advance: bool|
                {
                    &&& #[trigger] self@.settles(chain, outcome, advance, step)
                    &&& outcome matches Err(e) ==> self@.advances(e, advance)
                },
    {
        match outcome {
            Ok(value) => {
                let target = self.targets[chain.next].id.clone();
                let attempts: u32 = chain.attempts;
                let step = ChainStep::Done(Ok(Served { value, target, attempts }));
                assert(self@.settles(chain, outcome, true, step));
                step
            },
            Err(e) => {
                let advance = match e.source() {
                    Some(source) => self.advance_when.test(source),
                    None => true,
                };
                let own = e.into_inner();
                if !advance {
                    if let Some(source) = own {
                        let step = ChainStep::Done(Err(FallbackError::Exhausted(source)));
                        assert(self@.settles(chain, outcome, advance, step));
                        return step;
                    }
                }
                assert(self.targets.len() <= usize::MAX);
                let next: usize = chain.next + 1;
                let step = ChainStep::Next(
                    match own {
                        Some(source) => Chain { next, last_err: Some(source), ..chain },
                        None => Chain { next, ..chain },
                    },
                );
                assert(self@.settles(chain, outcome, advance, step));
                step
            },
        }
    }
}

/// The run that skipped all targets of `health`, from the start.
pub open spec fn skipped<E>(health: Seq<Health>) -> Chain<E>
    decreases health.len(),
{
    if health.len() == 0 {
        Chain { next: 0, attempts: 0, soonest: None, last_err: None }
    } else {
        skipped::<E>(health.drop_last()).past(health.last())
    }
}

/// Where every target is open nothing is attempted, and the run ends with the soonest that
/// one of them stops cooling.
pub proof fn law_all_open_all_unavailable<E>(health: Seq<Health>)
    requires
        health.len() <= usize::MAX,
        forall|i: int| 0 <= i < health.len() ==> (#[trigger] health[i]).open(),
    ensures
        skipped::<E>(health).next == health.len(),
        skipped::<E>(health).attempts == 0,
        skipped::<E>(health).end() == (FallbackError::AllUnavailable::<E> {
            next_available_at: crate::health::soonest(health),
        }),
        skipped::<E>(health).soonest == crate::health::soonest(health),
        skipped::<E>(health).last_err is None,
    decreases health.len(),
{
    if health.len() > 0 {
        let fewer = health.drop_last();
        assert forall|i: int| 0 <= i < fewer.len() implies (#[trigger] fewer[i]).open() by {
            assert(health[i].open());
        }
        law_all_open_all_unavailable::<E>(fewer);
        assert(health[health.len() - 1].open());
    }
}

/// A run ends as if no target had been available only if none was attempted: an attempt
/// is counted, and nothing takes it back.
pub proof fn law_unavailable_means_untried<P, T, E>(
    model: FallbackModel<P, E>,
    chain: Chain<E>,
    health: Health,
    outcome: Result<T, ExecutionError<E>>,
    advance: bool,
    step: ChainStep<T, E>,
)
    requires
        model.settles(chain.trying(), outcome, advance, step),
    ensures
        step matches ChainStep::Next(next) ==> next.attempts >= 1 && next.attempts
            >= chain.attempts,
        chain.past(health).attempts == chain.attempts,
        chain.end() is AllUnavailable ==> chain.attempts == 0,
        step matches ChainStep::Done(Err(e)) ==> e is Exhausted,
{
}

/// A permanent error ends the run with that error, whatever targets are left.
pub proof fn law_permanent_errors_end_the_run<P, T, E>(
    model: FallbackModel<P, E>,
    chain: Chain<E>,
    e: ExecutionError<E>,
    step: ChainStep<T, E>,
)
    requires
        e is Operation,
        forall|advance: bool| #[trigger] model.advances(e, advance) ==> !advance,
        exists|advance: bool| #[trigger]
            model.settles(chain, Err(e), advance, step) && model.advances(e, advance),
    ensures
        step == ChainStep::<T, E>::Done(Err(FallbackError::Exhausted(e->source))),
{
}

/// A target whose breaker is open is passed by for the next one, and only its cooldown is
/// remembered; any other is attempted where the run stands, and counted.
pub proof fn law_open_targets_are_passed_by<E>(chain: Chain<E>, health: Health)
    requires
        chain.next < usize::MAX,
        chain.attempts < u32::MAX,
    ensures
        health.open() == (health.state == Some(crate::error::BreakerState::Open)),
        ({
            let past = chain.past(health);
            &&& past.next == chain.next + 1
            &&& past.attempts == chain.attempts
            &&& past.last_err == chain.last_err
            &&& match (chain.soonest, health.cooling_until) {
                (None, t) => past.soonest == t,
                (Some(t), None) => past.soonest == Some(t),
                (Some(t), Some(u)) => past.soonest == Some(t) && t.nanos <= u.nanos || past.soonest
                    == Some(u) && u.nanos <= t.nanos,
            }
        }),
        ({
            let trying = chain.trying();
            &&& trying.next == chain.next
            &&& trying.attempts == chain.attempts + 1
            &&& trying.last_err == chain.last_err
            &&& trying.soonest == chain.soonest
        }),
{
}

/// After any failure on which the run goes on, whether an error of the operation, a timeout
/// or a call that was turned away, the run stands at the target right behind the one that
/// was attempted. It keeps its count and what it knows of cooldowns, and an error of the
/// operation takes the place of the one before.
pub proof fn law_failures_lead_to_the_next_target<P, T, E>(
    model: FallbackModel<P, E>,
    chain: Chain<E>,
    e: ExecutionError<E>,
    step: ChainStep<T, E>,
)
    requires
        chain.next < usize::MAX,
        exists|advance: bool| #[trigger]
            model.settles(chain, Err(e), advance, step) && model.advances(e, advance),
        e is Operation ==> forall|advance: bool| #[trigger]
            model.advance_when.answers(e->source, advance) ==> advance,
    ensures
        step matches ChainStep::Next(next) && {
            &&& next.next == chain.next + 1
            &&& next.attempts == chain.attempts
            &&& next.soonest == chain.soonest
            &&& e is Operation ==> next.last_err == Some(e->source)
            &&& e !is Operation ==> next.last_err == chain.last_err
        },
{
    let advance = choose|advance: bool| #[trigger]
        model.settles(chain, Err(e), advance, step) && model.advances(e, advance);
    assert(e.spec_source() is Some <==> e is Operation);
}

/// A target that returns a value serves the run: the value, the target itself and the number
/// of targets attempted are returned, and the run is over.
pub proof fn law_values_are_served<P, T, E>(
    model: FallbackModel<P, E>,
    chain: Chain<E>,
    value: T,
    advance: bool,
    step: ChainStep<T, E>,
)
    requires
        model.settles(chain, Ok(value), advance, step),
    ensures
        step matches ChainStep::Done(Ok(served)) && {
            &&& served.value == value
            &&& served.target@ == model.targets[chain.next as int].id@
            &&& served.attempts == chain.attempts
        },
{
}

/// A run that nobody served ends with the last error of the operation; without one it says
/// whether a target was attempted, and when the next one stops cooling.
pub proof fn law_runs_end_with_the_last_error<E>(chain: Chain<E>)
    ensures
        chain.last_err matches Some(e) ==> chain.end() == FallbackError::Exhausted(e),
        chain.last_err is None && chain.attempts == 0 ==> chain.end() == (
        FallbackError::AllUnavailable::<E> { next_available_at: chain.soonest }),
        chain.last_err is None && chain.attempts > 0 ==> chain.end() == (FallbackError::Unserved::<
            E,
        > { attempts: chain.attempts, next_available_at: chain.soonest }),
{
}

/// A run that nobody has served yet: `chains` tells where it stood before each target, and
/// after the last. Open targets were passed by, and all others attempted in vain.
pub open spec fn in_vain<P, T, E>(
    model: FallbackModel<P, E>,
    health: Seq<Health>,
    failures: Seq<ExecutionError<E>>,
    chains: Seq<Chain<E>>,
) -> bool {
    &&& chains.len() == health.len() + 1
    &&& failures.len() == health.len()
    &&& chains[0] == (Chain::<E> { next: 0, attempts: 0, soonest: None, last_err: None })
    &&& forall|k: int|
        0 <= k < health.len() ==> #[trigger] visited::<P, T, E>(
            model,
            health[k],
            failures[k],
            chains[k],
            chains[k + 1],
        )
}

/// The run went past a target, because it was open or because it failed.
pub open spec fn visited<P, T, E>(
    model: FallbackModel<P, E>,
    health: Health,
    failure: ExecutionError<E>,
    before: Chain<E>,
    after: Chain<E>,
) -> bool {
    if health.open() {
        after == before.past(health)
    } else {
        model.settles(
            before.trying(),
            Err::<T, ExecutionError<E>>(failure),
            true,
            ChainStep::<T, E>::Next(after),
        )
    }
}

/// How many targets of `health` are not open.
pub open spec fn fit_targets(health: Seq<Health>) -> nat
    decreases health.len(),
{
    if health.len() == 0 {
        0
    } else {
        fit_targets(health.drop_last()) + if health.last().state == Some(
            crate::error::BreakerState::Open,
        ) {
            0nat
        } else {
            1
        }
    }
}

/// The targets are taken in the order of their registration, each in its turn, and none is
/// left out: before its `k`th target a run has seen exactly the `k` targets before it, and
/// has attempted every one of them that was not open.
pub proof fn law_targets_are_taken_in_order<P, T, E>(
    model: FallbackModel<P, E>,
    health: Seq<Health>,
    failures: Seq<ExecutionError<E>>,
    chains: Seq<Chain<E>>,
    k: int,
)
    requires
        health.len() < u32::MAX,
        health.len() <= usize::MAX,
        in_vain::<P, T, E>(model, health, failures, chains),
        0 <= k < chains.len(),
    ensures
        chains[k].next == k,
        chains[k].attempts == fit_targets(health.take(k)),
        chains[k].attempts <= k,
        chains[k].soonest == crate::health::soonest(health.take(k)),
    decreases k,
{
    if k > 0 {
        let j = k - 1;
        law_targets_are_taken_in_order::<P, T, E>(model, health, failures, chains, j);
        assert(visited::<P, T, E>(model, health[j], failures[j], chains[j], chains[j + 1]));
        assert(health.take(k).drop_last() =~= health.take(j));
        assert(health.take(k).last() == health[j]);
    } else {
        assert(health.take(0).len() == 0);
    }
}

/// A policy tries the targets in the order in which they were added, with the deadline and the
/// predicate that were set last; one that was told nothing has an hour, and goes on after
/// every error.
pub proof fn law_policies_are_as_configured<P, E>(
    first: (String, P),
    second: (String, P),
    d: Duration,
    blank: FallbackPolicyBuilder<P, E>,
    one: FallbackPolicyBuilder<P, E>,
    two: FallbackPolicyBuilder<P, E>,
    timed: FallbackPolicyBuilder<P, E>,
    plain: FallbackPolicy<P, E>,
    policy: FallbackPolicy<P, E>,
)
    requires
        call_ensures(FallbackPolicy::<P, E>::builder, (), blank),
        call_ensures(FallbackPolicyBuilder::<P, E>::target, (blank, first.0, first.1), one),
        call_ensures(FallbackPolicyBuilder::<P, E>::target, (one, second.0, second.1), two),
        call_ensures(FallbackPolicyBuilder::<P, E>::deadline, (two, d), timed),
        call_ensures(FallbackPolicyBuilder::<P, E>::build, (two,), plain),
        call_ensures(FallbackPolicyBuilder::<P, E>::build, (timed,), policy),
    ensures
        policy@.targets.len() == 2,
        policy@.targets[0].id == first.0 && policy@.targets[0].policy == first.1,
        policy@.targets[1].id == second.0 && policy@.targets[1].policy == second.1,
        policy@.deadline == d,
        plain@.targets == policy@.targets,
        plain@.deadline.nanos == 3_600_000_000_000,
        forall|e: E, advance: bool| #[trigger]
            policy@.advance_when.answers(e, advance) ==> advance,
{
}

} // verus!
