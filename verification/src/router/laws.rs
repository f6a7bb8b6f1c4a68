//! What holds of a router over a whole run, and of its strategies over many.

use vstd::arithmetic::power2::*;
use vstd::prelude::*;

use crate::double;
use crate::double::Double;
use crate::error::ExecutionError;
use crate::health::Health;
use crate::pick::{Candidate, Pick};
use crate::router;
use crate::router::sample;
use crate::router::{Load, Route, RouteStep, RouterError, RouterModel, RouterPolicy};
use crate::runtime::clock::TestCore;
use crate::runtime::Core;
use crate::time::Duration;

verus! {

/// A run begins with every member whose breaker is not open, each once, and no other.
pub proof fn law_only_healthy_members(health: Seq<Health>)
    requires
        health.len() <= usize::MAX,
    ensures
        router::healthy_members(health).no_duplicates(),
        forall|i: usize| #[trigger]
            router::healthy_members(health).contains(i) <==> i < health.len()
                && !health[i as int].open(),
{
    let all = sample::in_order(health.len());
    let healthy = router::healthy_members(health);
    lemma_filter_keeps_distinct(all, router::fit(health));
    assert forall|i: usize| healthy.contains(i) implies i < health.len()
        && !health[i as int].open() by {
        all.lemma_filter_contains_rev(router::fit(health), i);
        let k = choose|k: int| 0 <= k < healthy.len() && healthy[k] == i;
        assert(router::fit(health)(healthy[k]));
    }
    assert forall|i: usize| i < health.len() && !health[i as int].open() implies healthy.contains(
        i,
    ) by {
        assert(all[i as int] == i);
        assert(router::fit(health)(all[i as int]));
    }
}

proof fn lemma_filter_keeps_distinct(s: Seq<usize>, p: spec_fn(usize) -> bool)
    requires
        s.no_duplicates(),
    ensures
        s.filter(p).no_duplicates(),
    decreases s.len(),
{
    reveal(Seq::filter);
    if s.len() > 0 {
        let fewer = s.drop_last();
        lemma_filter_keeps_distinct(fewer, p);
        if fewer.filter(p).contains(s.last()) {
            fewer.lemma_filter_contains_rev(p, s.last());
        }
    }
}

proof fn lemma_others(healthy: Seq<usize>, chosen: usize)
    requires
        healthy.no_duplicates(),
        healthy.contains(chosen),
    ensures
        router::others(healthy, chosen).no_duplicates(),
        router::others(healthy, chosen).len() == healthy.len() - 1,
        forall|i: usize| #[trigger]
            router::others(healthy, chosen).contains(i) <==> healthy.contains(i) && i != chosen,
    decreases healthy.len(),
{
    let p = router::other_than(chosen);
    let left = router::others(healthy, chosen);
    lemma_filter_keeps_distinct(healthy, p);
    assert forall|i: usize| left.contains(i) implies healthy.contains(i) && i != chosen by {
        healthy.lemma_filter_contains_rev(p, i);
        let k = choose|k: int| 0 <= k < left.len() && left[k] == i;
        assert(p(left[k]));
    }
    assert forall|i: usize| healthy.contains(i) && i != chosen implies left.contains(i) by {
        let k = choose|k: int| 0 <= k < healthy.len() && healthy[k] == i;
        assert(p(healthy[k]));
    }
    lemma_others_len(healthy, chosen);
}

proof fn lemma_others_len(healthy: Seq<usize>, chosen: usize)
    requires
        healthy.no_duplicates(),
    ensures
        router::others(healthy, chosen).len() == if healthy.contains(chosen) {
            healthy.len() - 1
        } else {
            healthy.len() as int
        },
    decreases healthy.len(),
{
    reveal(Seq::filter);
    if healthy.len() > 0 {
        let fewer = healthy.drop_last();
        lemma_others_len(fewer, chosen);
        if healthy.last() == chosen {
            assert(!fewer.contains(chosen));
            assert(healthy.contains(chosen)) by {
                assert(healthy[healthy.len() - 1] == chosen);
            }
        } else if healthy.contains(chosen) {
            let k = choose|k: int| 0 <= k < healthy.len() && healthy[k] == chosen;
            assert(fewer[k] == chosen);
        } else if fewer.contains(chosen) {
            let k = choose|k: int| 0 <= k < fewer.len() && fewer[k] == chosen;
            assert(healthy[k] == chosen);
        }
    }
}

/// The members that are left after `picks` were tried.
pub open spec fn left_after(healthy: Seq<usize>, picks: Seq<usize>) -> Seq<usize>
    decreases picks.len(),
{
    if picks.len() == 0 {
        healthy
    } else {
        router::others(left_after(healthy, picks.drop_last()), picks.last())
    }
}

/// Every member is tried at most once in a run: where each pick is one of the members
/// that were left, no two picks are the same, and each leaves one member fewer.
pub proof fn law_members_are_tried_once(healthy: Seq<usize>, picks: Seq<usize>)
    requires
        healthy.no_duplicates(),
        forall|k: int|
            0 <= k < picks.len() ==> left_after(healthy, #[trigger] picks.take(k)).contains(
                picks[k],
            ),
    ensures
        picks.no_duplicates(),
        left_after(healthy, picks).no_duplicates(),
        left_after(healthy, picks).len() == healthy.len() - picks.len(),
        forall|i: usize| #[trigger]
            left_after(healthy, picks).contains(i) <==> healthy.contains(i) && !picks.contains(i),
    decreases picks.len(),
{
    if picks.len() > 0 {
        let n = picks.len() - 1;
        let fewer = picks.drop_last();
        assert(picks.take(n) =~= fewer);
        assert forall|k: int| 0 <= k < fewer.len() implies left_after(
            healthy,
            #[trigger] fewer.take(k),
        ).contains(fewer[k]) by {
            assert(fewer.take(k) =~= picks.take(k));
        }
        law_members_are_tried_once(healthy, fewer);
        lemma_others(left_after(healthy, fewer), picks[n]);
        assert(picks =~= fewer.push(picks[n]));
        assert forall|i: usize| #[trigger] picks.contains(i) <==> fewer.contains(i) || i
            == picks[n] by {
            if picks.contains(i) {
                let k = choose|k: int| 0 <= k < picks.len() && picks[k] == i;
                if k < n {
                    assert(fewer[k] == i);
                }
            }
            if fewer.contains(i) {
                let k = choose|k: int| 0 <= k < fewer.len() && fewer[k] == i;
                assert(picks[k] == i);
            }
            if i == picks[n] {
                assert(picks[n] == i);
            }
        }
        assert(!fewer.contains(picks[n]));
    } else {
        assert(picks =~= Seq::empty());
    }
}

/// A permanent error ends the run with that error, whatever members are left.
pub proof fn law_permanent_errors_end_the_run<Id: Clone, H, T, E>(
    model: RouterModel<Id, H, E>,
    route: Route<E>,
    chosen: usize,
    e: ExecutionError<E>,
    step: RouteStep<Id, T, E>,
)
    requires
        e is Operation,
        forall|advance: bool| #[trigger] model.advances(e, advance) ==> !advance,
        exists|advance: bool| #[trigger]
            model.settles(route, chosen, Err(e), advance, step) && model.advances(e, advance),
    ensures
        step == RouteStep::<Id, T, E>::Done(Err(RouterError::Exhausted(e->source))),
{
}

/// A failure that is not an error of the operation never ends the run while members are
/// left.
pub proof fn law_other_failures_advance<Id: Clone, H, T, E>(
    model: RouterModel<Id, H, E>,
    route: Route<E>,
    chosen: usize,
    e: ExecutionError<E>,
    step: RouteStep<Id, T, E>,
)
    requires
        e !is Operation,
        router::others(route.healthy@, chosen).len() > 0,
        exists|advance: bool| #[trigger]
            model.settles(route, chosen, Err(e), advance, step) && model.advances(e, advance),
    ensures
        step is Next,
{
}

/// A run that attempted a member never ends as if none had been available.
pub proof fn law_unavailable_means_untried<Id: Clone, H, T, E>(
    model: RouterModel<Id, H, E>,
    route: Route<E>,
    chosen: usize,
    outcome: Result<T, ExecutionError<E>>,
    step: RouteStep<Id, T, E>,
)
    requires
        exists|advance: bool|
            {
                &&& #[trigger] model.settles(route, chosen, outcome, advance, step)
                &&& outcome matches Err(e) ==> model.advances(e, advance)
            },
    ensures
        step matches RouteStep::Done(Err(e)) ==> e !is AllUnavailable,
        step matches RouteStep::Done(Err(RouterError::Unserved { attempts, .. })) ==> attempts >= 1,
{
}

/// Equal seeds pick alike: on the same members and the same load, routers whose cores for
/// tests hold equal generators choose the same member, or report the same score, where
/// scoring a candidate again gives the same score.
pub proof fn law_equal_seeds_pick_alike<Id: Clone, H, E, W>(
    model: RouterModel<Id, H, E>,
    healthy: Seq<usize>,
    loads: Seq<Load>,
    a: TestCore<W>,
    b: TestCore<W>,
    after_a: TestCore<W>,
    after_b: TestCore<W>,
    chosen_a: Result<usize, RouterError<Id, E>>,
    chosen_b: Result<usize, RouterError<Id, E>>,
)
    requires
        forall|c: Candidate<'_, Id>, s: Double, t: Double|
            #![trigger model.select.scores(c, s), model.select.scores(c, t)]
            model.select.scores(c, s) && model.select.scores(c, t) ==> s == t,
        a.rng == b.rng,
        model.chooses_on(healthy, loads, a, after_a, chosen_a),
        model.chooses_on(healthy, loads, b, after_b, chosen_b),
    ensures
        chosen_a is Ok == chosen_b is Ok,
        chosen_a matches Ok(i) ==> chosen_b == Ok::<usize, RouterError<Id, E>>(i),
        chosen_a matches Err(RouterError::Score { value, .. }) ==> chosen_b matches Err(
            RouterError::Score { value: other, .. },
        ) && other == value,
        after_a.rng == after_b.rng,
{
    let sample = model.select.spec_sample();
    let n = healthy.len();
    let (draws_a, positions, scores_a) = choose|
        draws: Seq<u64>,
        positions: Seq<usize>,
        scores: Seq<Double>,
    |
        {
            &&& crate::runtime::drew_all(a, after_a, draws)
            &&& #[trigger] router::drawn(sample, n, draws, positions)
            &&& #[trigger] model.chooses(healthy, loads, positions, scores, chosen_a)
        };
    let (draws_b, positions_b, scores_b) = choose|
        draws: Seq<u64>,
        positions: Seq<usize>,
        scores: Seq<Double>,
    |
        {
            &&& crate::runtime::drew_all(b, after_b, draws)
            &&& #[trigger] router::drawn(sample, n, draws, positions)
            &&& #[trigger] model.chooses(healthy, loads, positions, scores, chosen_b)
        };
    crate::runtime::law_equal_seeds_draw_alike(a, b, after_a, after_b, draws_a, draws_b);
    assert(positions == positions_b);
    assert forall|i: int| 0 <= i < scores_a.len() && i < scores_b.len() implies scores_a[i]
        == scores_b[i] by {
        let c = model.candidate(healthy, loads, positions[i] as int);
        assert(model.select.scores(c, scores_a[i]));
        assert(model.select.scores(c, scores_b[i]));
    }
    let last_a = scores_a.len() - 1;
    let last_b = scores_b.len() - 1;
    if last_a < last_b {
        assert(scores_b[last_a].finite());
    }
    if last_b < last_a {
        assert(scores_a[last_b].finite());
    }
    assert(scores_a =~= scores_b);
    let all = Seq::new(scores_a.len(), |i: int| (healthy[positions[i] as int], scores_a[i]));
    if chosen_a is Ok {
        let i = choose|i: int| #[trigger] router::is_least(all, i) && all[i].0 == chosen_a->Ok_0;
        let j = choose|j: int| #[trigger] router::is_least(all, j) && all[j].0 == chosen_b->Ok_0;
        assert(!router::beats(all[i], all[j]) && !router::beats(all[j], all[i]));
    }
}

/// The choice depends on the scores alone and not on the order in which members were
/// drawn: of two orders of the same entries the same member comes out.
pub proof fn law_choice_is_independent_of_order(
    a: Seq<router::Scored>,
    b: Seq<router::Scored>,
    i: int,
    j: int,
)
    requires
        forall|e: router::Scored| #[trigger] a.contains(e) <==> b.contains(e),
        router::is_least(a, i),
        router::is_least(b, j),
    ensures
        a[i].0 == b[j].0,
{
    assert(a.contains(a[i]));
    assert(b.contains(b[j]) && a.contains(b[j]));
    let k = choose|k: int| 0 <= k < b.len() && b[k] == a[i];
    assert(!router::beats(b[k], b[j]));
    let m = choose|m: int| 0 <= m < a.len() && a[m] == b[j];
    assert(!router::beats(a[m], a[i]));
}

/// The scored entries of a choice.
pub open spec fn entries(
    healthy: Seq<usize>,
    positions: Seq<usize>,
    scores: Seq<Double>,
) -> Seq<router::Scored> {
    Seq::new(scores.len(), |i: int| (healthy[positions[i] as int], scores[i]))
}

/// The chosen member is the one at position `i` of the healthy members, where all of them
/// are scored and none has an infinite score: its score is least.
proof fn lemma_least_of_all<Id: Clone, H, E>(
    model: RouterModel<Id, H, E>,
    healthy: Seq<usize>,
    loads: Seq<Load>,
    scores: Seq<Double>,
    chosen: usize,
) -> (i: int)
    requires
        healthy.len() <= usize::MAX,
        model.chooses(
            healthy,
            loads,
            sample::in_order(healthy.len()),
            scores,
            Ok::<usize, RouterError<Id, E>>(chosen),
        ),
    ensures
        scores.len() == healthy.len(),
        0 <= i < healthy.len(),
        healthy[i] == chosen,
        forall|j: int|
            0 <= j < healthy.len() ==> !router::beats(
                (#[trigger] healthy[j], scores[j]),
                (healthy[i], scores[i]),
            ),
        forall|j: int|
            0 <= j < healthy.len() ==> model.select.scores(
                #[trigger] model.candidate(healthy, loads, j),
                scores[j],
            ),
{
    let positions = sample::in_order(healthy.len());
    let all = entries(healthy, positions, scores);
    let i = choose|i: int| #[trigger] router::is_least(all, i) && all[i].0 == chosen;
    assert(all =~= Seq::new(scores.len(), |i: int| (healthy[positions[i] as int], scores[i])));
    assert(router::is_least(all, i));
    assert forall|j: int| 0 <= j < healthy.len() implies !router::beats(
        (#[trigger] healthy[j], scores[j]),
        (healthy[i], scores[i]),
    ) by {
        assert(!router::beats(all[j], all[i]));
    }
    assert forall|j: int| 0 <= j < healthy.len() implies model.select.scores(
        #[trigger] model.candidate(healthy, loads, j),
        scores[j],
    ) by {
        let s = scores[j];
        assert(positions[j] == j);
    }
    i
}

/// Ordered failover takes the healthy member that was registered first.
pub proof fn law_first_healthy_is_first<Id: Clone, H, E>(
    model: RouterModel<Id, H, E>,
    healthy: Seq<usize>,
    loads: Seq<Load>,
    scores: Seq<Double>,
    chosen: usize,
)
    requires
        healthy.len() <= usize::MAX,
        forall|c: Candidate<'_, Id>, s: Double| #[trigger]
            model.select.scores(c, s) ==> s.bits == double::count_bits(c.index as nat),
        model.chooses(
            healthy,
            loads,
            sample::in_order(healthy.len()),
            scores,
            Ok::<usize, RouterError<Id, E>>(chosen),
        ),
    ensures
        healthy.contains(chosen),
        forall|j: int| 0 <= j < healthy.len() ==> chosen <= #[trigger] healthy[j],
{
    let i = lemma_least_of_all(model, healthy, loads, scores, chosen);
    lemma2_to64();
    assert forall|j: int| 0 <= j < healthy.len() implies chosen <= #[trigger] healthy[j] by {
        let a = model.candidate(healthy, loads, i);
        let b = model.candidate(healthy, loads, j);
        assert(model.select.scores(a, scores[i]));
        assert(model.select.scores(b, scores[j]));
        if healthy[j] < chosen {
            double::lemma_count_bits_bounded(healthy[i] as nat);
            double::lemma_count_bits_bounded(healthy[j] as nat);
            double::lemma_count_bits_ordered(healthy[j] as nat, healthy[i] as nat);
            assert(router::beats((healthy[j], scores[j]), (healthy[i], scores[i])));
        }
    }
}

/// Least in flight takes a member with no more outstanding calls than any other, as far
/// as doubles tell the numbers apart.
pub proof fn law_least_in_flight_is_least<Id: Clone, H, E>(
    model: RouterModel<Id, H, E>,
    healthy: Seq<usize>,
    loads: Seq<Load>,
    scores: Seq<Double>,
    chosen: usize,
)
    requires
        healthy.len() <= usize::MAX,
        loads.len() == healthy.len(),
        forall|j: int| 0 <= j < loads.len() ==> (#[trigger] loads[j]).in_flight < pow2(53),
        forall|c: Candidate<'_, Id>, s: Double| #[trigger]
            model.select.scores(c, s) ==> s.bits == double::count_bits(c.in_flight as nat),
        model.chooses(
            healthy,
            loads,
            sample::in_order(healthy.len()),
            scores,
            Ok::<usize, RouterError<Id, E>>(chosen),
        ),
    ensures
        exists|i: int|
            {
                &&& 0 <= i < healthy.len()
                &&& healthy[i] == chosen
                &&& forall|j: int|
                    0 <= j < loads.len() ==> (#[trigger] loads[i]).in_flight <= (
                    #[trigger] loads[j]).in_flight
            },
{
    let i = lemma_least_of_all(model, healthy, loads, scores, chosen);
    lemma2_to64();
    lemma2_to64_rest();
    assert forall|j: int| 0 <= j < loads.len() implies loads[i].in_flight <= (
    #[trigger] loads[j]).in_flight by {
        let a = model.candidate(healthy, loads, i);
        let b = model.candidate(healthy, loads, j);
        assert(model.select.scores(a, scores[i]));
        assert(model.select.scores(b, scores[j]));
        if loads[j].in_flight < loads[i].in_flight {
            double::lemma_count_bits_bounded(loads[i].in_flight as nat);
            double::lemma_count_bits_bounded(loads[j].in_flight as nat);
            double::lemma_count_bits_ordered(
                loads[j].in_flight as nat,
                loads[i].in_flight as nat,
            );
            assert(router::beats((healthy[j], scores[j]), (healthy[i], scores[i])));
        }
    }
    assert(loads[i] == loads[i]);
}

/// No member was picked more than once more often than another.
pub open spec fn even(loads: Seq<Load>) -> bool {
    forall|a: int, b: int|
        0 <= a < loads.len() && 0 <= b < loads.len() ==> (#[trigger] loads[a]).pick_count <= (
        #[trigger] loads[b]).pick_count + 1
}

/// The loads once the member at `i` was picked.
pub open spec fn picked(loads: Seq<Load>, i: int) -> Seq<Load> {
    loads.update(i, Load { pick_count: (loads[i].pick_count + 1) as u64, ..loads[i] })
}

/// Round robin spreads calls evenly: where all members are healthy and were picked
/// evenly, they still are once the chosen one is counted.
pub proof fn law_round_robin_stays_even<Id: Clone, H, E>(
    model: RouterModel<Id, H, E>,
    healthy: Seq<usize>,
    loads: Seq<Load>,
    scores: Seq<Double>,
    chosen: usize,
)
    requires
        healthy.len() <= usize::MAX,
        loads.len() == healthy.len(),
        forall|j: int| 0 <= j < loads.len() ==> (#[trigger] loads[j]).pick_count < pow2(53),
        forall|c: Candidate<'_, Id>, s: Double| #[trigger]
            model.select.scores(c, s) ==> s.bits == double::count_bits(c.pick_count as nat),
        model.chooses(
            healthy,
            loads,
            sample::in_order(healthy.len()),
            scores,
            Ok::<usize, RouterError<Id, E>>(chosen),
        ),
        even(loads),
    ensures
        exists|i: int|
            {
                &&& 0 <= i < healthy.len()
                &&& healthy[i] == chosen
                &&& even(#[trigger] picked(loads, i))
            },
{
    let i = lemma_least_of_all(model, healthy, loads, scores, chosen);
    lemma2_to64();
    lemma2_to64_rest();
    assert forall|j: int| 0 <= j < loads.len() implies loads[i].pick_count <= (
    #[trigger] loads[j]).pick_count by {
        let a = model.candidate(healthy, loads, i);
        let b = model.candidate(healthy, loads, j);
        assert(model.select.scores(a, scores[i]));
        assert(model.select.scores(b, scores[j]));
        if loads[j].pick_count < loads[i].pick_count {
            double::lemma_count_bits_bounded(loads[i].pick_count as nat);
            double::lemma_count_bits_bounded(loads[j].pick_count as nat);
            double::lemma_count_bits_ordered(
                loads[j].pick_count as nat,
                loads[i].pick_count as nat,
            );
            assert(router::beats((healthy[j], scores[j]), (healthy[i], scores[i])));
        }
    }
    assert(even(picked(loads, i)));
}

/// The count of attempts after `n` of them.
pub open spec fn attempts_after(n: nat) -> u32
    decreases n,
{
    if n == 0 {
        0
    } else {
        router::counted_up(attempts_after((n - 1) as nat))
    }
}

/// A served value tells how many members were attempted, itself included.
pub proof fn law_attempts_count_the_members(n: nat)
    requires
        n <= u32::MAX,
    ensures
        attempts_after(n) == n,
    decreases n,
{
    if n > 0 {
        law_attempts_count_the_members((n - 1) as nat);
    }
}

/// A candidate shows the member it stands for: its own id, place and weight, its own load,
/// and its own reading where the router has a meter, whichever members are left out.
pub proof fn law_candidates_show_their_member<Id: Clone, H, E>(
    model: RouterModel<Id, H, E>,
    healthy: Seq<usize>,
    loads: Seq<Load>,
    p: int,
)
    requires
        0 <= p < healthy.len(),
        healthy[p] < model.targets.len(),
        loads.len() == healthy.len(),
    ensures
        ({
            let c = model.candidate(healthy, loads, p);
            let member = model.targets[healthy[p] as int];
            &&& *c.id == member.id
            &&& c.weight == member.weight
            &&& c.index == healthy[p]
            &&& c.in_flight == loads[p].in_flight
            &&& c.pick_count == loads[p].pick_count
            &&& c.latency is Some == model.meter is Some
            &&& model.meter is Some && loads[p].reading is Some ==> c.latency == loads[p].reading
            &&& model.meter is Some && loads[p].reading is None ==> c.latency->0.nanos == 0
        }),
{
}

/// The member that is chosen has the least of all scores that were given, and of several
/// with that score the one registered first. Every candidate that was to be scored was, and
/// its score is finite.
pub proof fn law_the_least_score_wins<Id: Clone, H, E>(
    model: RouterModel<Id, H, E>,
    healthy: Seq<usize>,
    loads: Seq<Load>,
    positions: Seq<usize>,
    scores: Seq<Double>,
    chosen: usize,
) -> (i: int)
    requires
        model.chooses(
            healthy,
            loads,
            positions,
            scores,
            Ok::<usize, RouterError<Id, E>>(chosen),
        ),
    ensures
        scores.len() == positions.len(),
        0 <= i < positions.len(),
        healthy[positions[i] as int] == chosen,
        forall|j: int|
            0 <= j < positions.len() ==> {
                &&& (#[trigger] scores[j]).finite()
                &&& scores[i].rank() <= scores[j].rank()
                &&& scores[i].rank() == scores[j].rank() ==> chosen <= healthy[positions[j] as int]
                &&& model.select.scores(
                    model.candidate(healthy, loads, positions[j] as int),
                    scores[j],
                )
            },
{
    let all = Seq::new(scores.len(), |i: int| (healthy[positions[i] as int], scores[i]));
    let i = choose|i: int| #[trigger] router::is_least(all, i) && all[i].0 == chosen;
    assert forall|j: int| 0 <= j < positions.len() implies {
        &&& (#[trigger] scores[j]).finite()
        &&& scores[i].rank() <= scores[j].rank()
        &&& scores[i].rank() == scores[j].rank() ==> chosen <= healthy[positions[j] as int]
        &&& model.select.scores(
            model.candidate(healthy, loads, positions[j] as int),
            scores[j],
        )
    } by {
        assert(!router::beats(all[j], all[i]));
        let last = scores.len() - 1;
        assert(j < last || scores[j] == scores[last]);
    }
    i
}

/// A score that is infinite or not a number is reported with the member that it was given to,
/// and it is the first such score; a choice is refused for no other reason.
pub proof fn law_bad_scores_are_reported<Id: Clone, H, E>(
    model: RouterModel<Id, H, E>,
    healthy: Seq<usize>,
    loads: Seq<Load>,
    positions: Seq<usize>,
    scores: Seq<Double>,
    e: RouterError<Id, E>,
)
    requires
        model.chooses(healthy, loads, positions, scores, Err::<usize, RouterError<Id, E>>(e)),
    ensures
        ({
            let last = scores.len() - 1;
            &&& 0 <= last < positions.len()
            &&& e matches RouterError::Score { id, value } && value == scores[last]
                && !value.finite() && cloned(
                model.targets[healthy[positions[last] as int] as int].id,
                id,
            )
            &&& model.select.scores(
                model.candidate(healthy, loads, positions[last] as int),
                scores[last],
            )
            &&& forall|j: int| 0 <= j < last ==> (#[trigger] scores[j]).finite()
        }),
{
    let last = scores.len() - 1;
    let value = scores[last];
    assert(model.select.scores(
        model.candidate(healthy, loads, positions[last] as int),
        scores[last],
    ));
}

/// The candidates that a strategy scores: all of them in order, where it asks for no sample
/// or for one that is not smaller; otherwise as many distinct ones as it asks for, and
/// exactly as many numbers are drawn for them.
pub proof fn law_samples_are_distinct_candidates(
    sample: Option<usize>,
    n: nat,
    draws: Seq<u64>,
    positions: Seq<usize>,
)
    requires
        n <= usize::MAX,
        router::drawn(sample, n, draws, positions),
    ensures
        sample matches Some(k) && k < n ==> {
            &&& positions.len() == sample->0
            &&& draws.len() == sample->0
            &&& positions.no_duplicates()
        },
        !(sample matches Some(k) && k < n) ==> {
            &&& positions.len() == n
            &&& draws.len() == 0
            &&& forall|i: int| 0 <= i < n ==> #[trigger] positions[i] == i
        },
        forall|i: int| 0 <= i < positions.len() ==> (#[trigger] positions[i]) < n,
{
    if sample matches Some(k) && k < n {
        sample::law_shuffle_is_a_permutation(n, draws, draws.len());
    }
}

/// Ordered failover, as it is built, takes the healthy member that was registered first.
pub proof fn law_failover_is_in_order<Id: Clone, H, E, C: Core>(
    model: RouterModel<Id, H, E>,
    healthy: Seq<usize>,
    loads: Seq<Load>,
    before: C,
    after: C,
    chosen: usize,
)
    requires
        call_ensures(Pick::<Id>::first_healthy, (), model.select),
        healthy.len() <= usize::MAX,
        model.chooses_on(
            healthy,
            loads,
            before,
            after,
            Ok::<usize, RouterError<Id, E>>(chosen),
        ),
    ensures
        healthy.contains(chosen),
        forall|j: int| 0 <= j < healthy.len() ==> chosen <= #[trigger] healthy[j],
        before == after,
{
    let (draws, positions, scores) = lemma_chosen_on(model, healthy, loads, before, after, chosen);
    law_first_healthy_is_first(model, healthy, loads, scores, chosen);
}

/// Least in flight, as it is built, takes a member with no more outstanding calls than any
/// other, and round robin one that was picked no more often, as far as doubles tell the
/// numbers apart; ties go to the one registered first.
pub proof fn law_counting_strategies_take_the_least<Id: Clone, H, E, C: Core>(
    model: RouterModel<Id, H, E>,
    healthy: Seq<usize>,
    loads: Seq<Load>,
    before: C,
    after: C,
    chosen: usize,
)
    requires
        call_ensures(Pick::<Id>::least_in_flight, (), model.select) || call_ensures(
            Pick::<Id>::round_robin,
            (),
            model.select,
        ),
        healthy.len() <= usize::MAX,
        loads.len() == healthy.len(),
        forall|j: int|
            0 <= j < loads.len() ==> (#[trigger] loads[j]).in_flight < pow2(53)
                && loads[j].pick_count < pow2(53),
        model.chooses_on(
            healthy,
            loads,
            before,
            after,
            Ok::<usize, RouterError<Id, E>>(chosen),
        ),
    ensures
        exists|i: int|
            {
                &&& 0 <= i < healthy.len()
                &&& #[trigger] healthy[i] == chosen
                &&& call_ensures(Pick::<Id>::least_in_flight, (), model.select) ==> forall|j: int|
                    0 <= j < loads.len() ==> {
                        &&& loads[i].in_flight <= (#[trigger] loads[j]).in_flight
                        &&& loads[i].in_flight == loads[j].in_flight ==> chosen <= healthy[j]
                    }
                &&& call_ensures(Pick::<Id>::round_robin, (), model.select) ==> forall|j: int|
                    0 <= j < loads.len() ==> {
                        &&& loads[i].pick_count <= (#[trigger] loads[j]).pick_count
                        &&& loads[i].pick_count == loads[j].pick_count ==> chosen <= healthy[j]
                    }
            },
        before == after,
{
    let (draws, positions, scores) = lemma_chosen_on(model, healthy, loads, before, after, chosen);
    law_samples_are_distinct_candidates(
        model.select.spec_sample(),
        healthy.len(),
        draws,
        positions,
    );
    let i = law_the_least_score_wins(model, healthy, loads, positions, scores, chosen);
    lemma2_to64();
    lemma2_to64_rest();
    assert(positions[i] == i);
    assert(healthy[i] == chosen);
    let a = model.candidate(healthy, loads, i);
    assert(model.select.scores(a, scores[i]));
    if call_ensures(Pick::<Id>::least_in_flight, (), model.select) {
        assert forall|j: int| 0 <= j < loads.len() implies {
            &&& loads[i].in_flight <= (#[trigger] loads[j]).in_flight
            &&& loads[i].in_flight == loads[j].in_flight ==> chosen <= healthy[j]
        } by {
            assert(positions[j] == j);
            let b = model.candidate(healthy, loads, j);
            let s = scores[j];
            assert(model.select.scores(b, scores[j]));
            lemma_counts_in_order(
                scores[i],
                scores[j],
                loads[i].in_flight as nat,
                loads[j].in_flight as nat,
            );
        }
    }
    if call_ensures(Pick::<Id>::round_robin, (), model.select) {
        assert forall|j: int| 0 <= j < loads.len() implies {
            &&& loads[i].pick_count <= (#[trigger] loads[j]).pick_count
            &&& loads[i].pick_count == loads[j].pick_count ==> chosen <= healthy[j]
        } by {
            assert(positions[j] == j);
            let b = model.candidate(healthy, loads, j);
            let s = scores[j];
            assert(model.select.scores(b, scores[j]));
            lemma_counts_in_order(
                scores[i],
                scores[j],
                loads[i].pick_count as nat,
                loads[j].pick_count as nat,
            );
        }
    }
}

/// Of two counts the one whose score is not greater is not greater.
proof fn lemma_counts_in_order(a: Double, b: Double, m: nat, n: nat)
    requires
        m < pow2(53),
        n < pow2(53),
        a.bits == double::count_bits(m),
        b.bits == double::count_bits(n),
        a.rank() <= b.rank(),
    ensures
        m <= n,
        m == n ==> a.rank() == b.rank(),
{
    lemma2_to64();
    lemma2_to64_rest();
    double::lemma_count_bits_bounded(m);
    double::lemma_count_bits_bounded(n);
    if n < m {
        double::lemma_count_bits_ordered(n, m);
    }
}

/// Weighted least in flight, as it is built, takes the member with the least share, which is
/// computed from the member's own outstanding calls and its own configured weight, whichever
/// members are left out.
pub proof fn law_weights_count_for_their_member<
    Id: Clone,
    H,
    E,
    C: Core,
    F: Fn(usize, Double) -> Double + Send + Sync + 'static,
>(
    share: F,
    model: RouterModel<Id, H, E>,
    healthy: Seq<usize>,
    loads: Seq<Load>,
    before: C,
    after: C,
    chosen: usize,
)
    requires
        call_ensures(Pick::<Id>::weighted_least_in_flight::<F>, (share,), model.select),
        healthy.len() <= usize::MAX,
        loads.len() == healthy.len(),
        model.chooses_on(
            healthy,
            loads,
            before,
            after,
            Ok::<usize, RouterError<Id, E>>(chosen),
        ),
    ensures
        exists|i: int, shares: Seq<Double>|
            {
                &&& 0 <= i < healthy.len()
                &&& #[trigger] healthy[i] == chosen
                &&& #[trigger] shares.len() == healthy.len()
                &&& forall|j: int|
                    0 <= j < healthy.len() ==> {
                        &&& call_ensures(
                            share,
                            (loads[j].in_flight, model.targets[healthy[j] as int].weight),
                            #[trigger] shares[j],
                        )
                        &&& shares[i].rank() <= shares[j].rank()
                        &&& shares[i].rank() == shares[j].rank() ==> chosen <= healthy[j]
                    }
            },
        before == after,
{
    let (draws, positions, scores) = lemma_chosen_on(model, healthy, loads, before, after, chosen);
    law_samples_are_distinct_candidates(
        model.select.spec_sample(),
        healthy.len(),
        draws,
        positions,
    );
    let i = law_the_least_score_wins(model, healthy, loads, positions, scores, chosen);
    assert(positions[i] == i);
    assert(healthy[i] == chosen);
    assert forall|j: int| 0 <= j < healthy.len() implies {
        &&& call_ensures(
            share,
            (loads[j].in_flight, model.targets[healthy[j] as int].weight),
            #[trigger] scores[j],
        )
        &&& scores[i].rank() <= scores[j].rank()
        &&& scores[i].rank() == scores[j].rank() ==> chosen <= healthy[j]
    } by {
        assert(positions[j] == j);
        let c = model.candidate(healthy, loads, j);
        assert(model.select.scores(c, scores[j]));
    }
    assert(scores.len() == healthy.len());
}

/// The power of two choices, as it is built, looks at two distinct healthy members that the
/// draws picked, and takes the one with fewer outstanding calls, as far as doubles tell the
/// numbers apart; where there are no more than two it looks at all of them.
pub proof fn law_two_choices_take_the_less_busy<Id: Clone, H, E, C: Core>(
    model: RouterModel<Id, H, E>,
    healthy: Seq<usize>,
    loads: Seq<Load>,
    before: C,
    after: C,
    chosen: usize,
)
    requires
        call_ensures(Pick::<Id>::p2c, (), model.select),
        0 < healthy.len() <= usize::MAX,
        loads.len() == healthy.len(),
        forall|j: int| 0 <= j < loads.len() ==> (#[trigger] loads[j]).in_flight < pow2(53),
        model.chooses_on(
            healthy,
            loads,
            before,
            after,
            Ok::<usize, RouterError<Id, E>>(chosen),
        ),
    ensures
        exists|draws: Seq<u64>, a: int, b: int|
            {
                &&& #[trigger] crate::runtime::drew_all(before, after, draws)
                &&& draws.len() == if healthy.len() > 2 {
                    2int
                } else {
                    0
                }
                &&& 0 <= a < healthy.len()
                &&& 0 <= b < healthy.len()
                &&& healthy.len() > 1 ==> a != b
                &&& healthy.len() > 2 ==> (a == (draws[0] as usize) as int % healthy.len() as int
                    || b == (draws[0] as usize) as int % healthy.len() as int)
                &&& #[trigger] healthy[a] == chosen
                &&& loads[a].in_flight <= loads[b].in_flight
                &&& #[trigger] loads[b].in_flight == loads[a].in_flight ==> chosen <= healthy[b]
            },
{
    let (draws, positions, scores) = lemma_chosen_on(model, healthy, loads, before, after, chosen);
    let n = healthy.len();
    law_samples_are_distinct_candidates(model.select.spec_sample(), n, draws, positions);
    let i = law_the_least_score_wins(model, healthy, loads, positions, scores, chosen);
    lemma2_to64();
    lemma2_to64_rest();
    let j: int = if positions.len() == 1 {
        0
    } else {
        1 - i
    };
    let a = positions[i] as int;
    let b = positions[j] as int;
    if n > 2 {
        sample::law_shuffle_is_a_permutation(n, draws, 2);
        sample::law_draws_pick_the_positions(n, draws, 2, 0);
        assert(positions == sample::shuffled(n, draws, 2).take(2));
        assert(positions[0] == sample::shuffled(n, draws, 2)[0]);
        assert(i == 0 || j == 0);
    }
    let s = scores[j];
    let t = scores[i];
    assert(model.select.scores(model.candidate(healthy, loads, b), scores[j]));
    assert(model.select.scores(model.candidate(healthy, loads, a), scores[i]));
    lemma_counts_in_order(
        scores[i],
        scores[j],
        loads[a].in_flight as nat,
        loads[b].in_flight as nat,
    );
    assert(healthy[a] == chosen);
    assert(loads[b] == loads[b]);
}

/// Latency-aware choice, as it is built, looks at two distinct healthy members, or at all of
/// them where there are no more, and takes the one that costs less by its own reading and its
/// own outstanding calls.
pub proof fn law_latency_aware_choice_costs_less<
    Id: Clone,
    H,
    E,
    C: Core,
    F: Fn(Duration, usize) -> Double + Send + Sync + 'static,
>(
    cost: F,
    model: RouterModel<Id, H, E>,
    healthy: Seq<usize>,
    loads: Seq<Load>,
    before: C,
    after: C,
    chosen: usize,
)
    requires
        call_ensures(Pick::<Id>::peak_ewma::<F>, (cost,), model.select),
        model.meter is Some,
        0 < healthy.len() <= usize::MAX,
        loads.len() == healthy.len(),
        forall|j: int| 0 <= j < loads.len() ==> (#[trigger] loads[j]).reading is Some,
        model.chooses_on(
            healthy,
            loads,
            before,
            after,
            Ok::<usize, RouterError<Id, E>>(chosen),
        ),
    ensures
        exists|a: int, b: int, s: Double, t: Double|
            {
                &&& 0 <= a < healthy.len()
                &&& 0 <= b < healthy.len()
                &&& healthy.len() > 1 ==> a != b
                &&& healthy[a] == chosen
                &&& #[trigger] call_ensures(cost, (loads[a].reading->0, loads[a].in_flight), s)
                &&& #[trigger] call_ensures(cost, (loads[b].reading->0, loads[b].in_flight), t)
                &&& s.rank() <= t.rank()
                &&& s.rank() == t.rank() ==> chosen <= healthy[b]
            },
{
    let (draws, positions, scores) = lemma_chosen_on(model, healthy, loads, before, after, chosen);
    let n = healthy.len();
    law_samples_are_distinct_candidates(model.select.spec_sample(), n, draws, positions);
    let i = law_the_least_score_wins(model, healthy, loads, positions, scores, chosen);
    let j: int = if positions.len() == 1 {
        0
    } else {
        1 - i
    };
    let a = positions[i] as int;
    let b = positions[j] as int;
    let s = scores[i];
    let t = scores[j];
    let ca = model.candidate(healthy, loads, a);
    let cb = model.candidate(healthy, loads, b);
    assert(model.select.scores(ca, s));
    assert(model.select.scores(cb, t));
    assert(loads[a].reading is Some && loads[b].reading is Some);
    assert(call_ensures(cost, (loads[a].reading->0, loads[a].in_flight), s));
    assert(call_ensures(cost, (loads[b].reading->0, loads[b].in_flight), t));
}

proof fn lemma_chosen_on<Id: Clone, H, E, C: Core>(
    model: RouterModel<Id, H, E>,
    healthy: Seq<usize>,
    loads: Seq<Load>,
    before: C,
    after: C,
    chosen: usize,
) -> (r: (Seq<u64>, Seq<usize>, Seq<Double>))
    requires
        model.chooses_on(
            healthy,
            loads,
            before,
            after,
            Ok::<usize, RouterError<Id, E>>(chosen),
        ),
    ensures
        crate::runtime::drew_all(before, after, r.0),
        router::drawn(model.select.spec_sample(), healthy.len(), r.0, r.1),
        model.chooses(healthy, loads, r.1, r.2, Ok::<usize, RouterError<Id, E>>(chosen)),
{
    choose|draws: Seq<u64>, positions: Seq<usize>, scores: Seq<Double>|
        {
            &&& crate::runtime::drew_all(before, after, draws)
            &&& #[trigger] router::drawn(
                model.select.spec_sample(),
                healthy.len(),
                draws,
                positions,
            )
            &&& #[trigger] model.chooses(
                healthy,
                loads,
                positions,
                scores,
                Ok::<usize, RouterError<Id, E>>(chosen),
            )
        }
}

/// A member that returns a value serves the run: the value, the member itself and the number
/// of members attempted are returned, and the run is over.
pub proof fn law_values_are_served<Id: Clone, H, T, E>(
    model: RouterModel<Id, H, E>,
    route: Route<E>,
    chosen: usize,
    value: T,
    advance: bool,
    step: RouteStep<Id, T, E>,
)
    requires
        route.attempts < u32::MAX,
        model.settles(route, chosen, Ok(value), advance, step),
    ensures
        step matches RouteStep::Done(Ok(served)) && {
            &&& served.value == value
            &&& cloned(model.targets[chosen as int].id, served.target)
            &&& served.attempts == route.attempts + 1
        },
{
}

/// After any failure on which the run goes on, whether an error of the operation, a timeout
/// or a call that was turned away, all members but the one that failed are left to try, and
/// only where none is left the run ends: with the last error of the operation, or saying that
/// there was none.
pub proof fn law_failures_leave_the_other_members<Id: Clone, H, T, E>(
    model: RouterModel<Id, H, E>,
    route: Route<E>,
    chosen: usize,
    e: ExecutionError<E>,
    step: RouteStep<Id, T, E>,
)
    requires
        route.attempts < u32::MAX,
        route.healthy@.no_duplicates(),
        route.healthy@.contains(chosen),
        exists|advance: bool| #[trigger]
            model.settles(route, chosen, Err(e), advance, step) && model.advances(e, advance),
        e is Operation ==> forall|advance: bool| #[trigger]
            model.advance_when.answers(e->source, advance) ==> advance,
    ensures
        ({
            let last_err = if e is Operation {
                Some(e->source)
            } else {
                route.last_err
            };
            &&& (step is Next) == (route.healthy@.len() > 1)
            &&& step matches RouteStep::Next(next) ==> {
                &&& next.healthy@.len() == route.healthy@.len() - 1
                &&& forall|i: usize| #[trigger]
                    next.healthy@.contains(i) <==> route.healthy@.contains(i) && i != chosen
                &&& next.attempts == route.attempts + 1
                &&& next.soonest == route.soonest
                &&& next.last_err == last_err
            }
            &&& step matches RouteStep::Done(r) ==> r == Err::<
                router::Served<Id, T>,
                RouterError<Id, E>,
            >(
                match last_err {
                    Some(source) => RouterError::Exhausted(source),
                    None => RouterError::Unserved {
                        attempts: (route.attempts + 1) as u32,
                        next_available_at: route.soonest,
                    },
                },
            )
        }),
{
    let advance = choose|advance: bool| #[trigger]
        model.settles(route, chosen, Err(e), advance, step) && model.advances(e, advance);
    assert(e.spec_source() is Some <==> e is Operation);
    lemma_others(route.healthy@, chosen);
}

/// A run begins where at least one breaker is not open, with all such members and nothing
/// attempted yet; otherwise it ends at once and tells when the first one stops cooling.
pub proof fn law_runs_begin_with_the_healthy<Id: Clone, H, E>(
    policy: RouterPolicy<Id, H, E>,
    health: Vec<Health>,
    r: Result<Route<E>, RouterError<Id, E>>,
)
    requires
        call_ensures(RouterPolicy::<Id, H, E>::survey, (&policy, &health), r),
        health@.len() <= usize::MAX,
    ensures
        (r is Err) == (forall|i: int|
            0 <= i < health@.len() ==> (#[trigger] health@[i]).state == Some(
                crate::error::BreakerState::Open,
            )),
        r matches Ok(route) ==> {
            &&& route.attempts == 0
            &&& route.last_err is None
            &&& forall|i: usize| #[trigger]
                route.healthy@.contains(i) <==> i < health@.len() && health@[i as int].state
                    != Some(crate::error::BreakerState::Open)
        },
        r matches Err(e) ==> e matches RouterError::AllUnavailable { next_available_at }
            && next_available_at == crate::health::soonest(health@),
{
    law_only_healthy_members(health@);
    let healthy = router::healthy_members(health@);
    if healthy.len() > 0 {
        assert(healthy.contains(healthy[0]));
        let i = healthy[0] as int;
        assert(health@[i].state != Some(crate::error::BreakerState::Open));
    } else {
        assert forall|i: int| 0 <= i < health@.len() implies (#[trigger] health@[i]).state == Some(
            crate::error::BreakerState::Open,
        ) by {
            if !health@[i].open() {
                assert(healthy.contains(i as usize));
            }
        }
    }
}

} // verus!
