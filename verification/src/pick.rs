//! Selection strategies. A strategy is a score and a sample size; the router takes the
//! candidate with the least score and knows nothing else of it.

use std::sync::Arc;

use vstd::prelude::*;

use crate::double::Double;
use crate::time::Duration;

verus! {

/// What a score sees of a candidate. All candidates are healthy, so that no score can
/// lead to an open breaker.
pub struct Candidate<'a, Id> {
    pub id: &'a Id,
    pub index: usize,
    pub in_flight: usize,
    pub weight: Double,
    pub pick_count: u64,
    pub latency: Option<Duration>,
}

impl<'a, Id> Candidate<'a, Id> {
    pub fn id(&self) -> (id: &Id)
        ensures
            *id == *self.id,
    {
        self.id
    }

    /// Order of registration: the score of ordered failover, and what breaks ties.
    pub fn index(&self) -> (n: usize)
        ensures
            n == self.index,
    {
        self.index
    }

    /// Outstanding calls, over all routers that the member belongs to.
    pub fn in_flight(&self) -> (n: usize)
        ensures
            n == self.in_flight,
    {
        self.in_flight
    }

    /// The configured weight, finite and positive.
    pub fn weight(&self) -> (w: Double)
        ensures
            w == self.weight,
    {
        self.weight
    }

    /// How often the member was chosen, over all routers that it belongs to.
    pub fn pick_count(&self) -> (n: u64)
        ensures
            n == self.pick_count,
    {
        self.pick_count
    }

    /// The meter's reading, or nothing where the router has no meter.
    pub fn latency(&self) -> (l: Option<Duration>)
        ensures
            l == self.latency,
    {
        self.latency
    }
}

/// What [`Pick`] keeps of a closure.
pub trait ScoreFn<Id>: Send + Sync {
    spec fn accepts(&self, c: Candidate<'_, Id>) -> bool;

    spec fn answers(&self, c: Candidate<'_, Id>, s: Double) -> bool;

    fn score(&self, c: &Candidate<'_, Id>) -> (s: Double)
        requires
            self.accepts(*c),
        ensures
            self.answers(*c, s),
    ;
}

/// A closure as a score.
pub struct Scorer<F> {
    pub f: F,
}

impl<Id, F> ScoreFn<Id> for Scorer<F> where
    F: for<'a, 'b>Fn(&'b Candidate<'a, Id>) -> Double + Send + Sync,
 {
    open spec fn accepts(&self, c: Candidate<'_, Id>) -> bool {
        call_requires(self.f, (&c,))
    }

    open spec fn answers(&self, c: Candidate<'_, Id>, s: Double) -> bool {
        call_ensures(self.f, (&c,), s)
    }

    fn score(&self, c: &Candidate<'_, Id>) -> (s: Double) {
        (self.f)(c)
    }
}

/// A shared score.
#[verifier::reject_recursive_types(Id)]
pub struct Score<Id> {
    kept: Box<dyn ScoreFn<Id>>,
}

/// A selection strategy: a score, and how many candidates to draw at random before
/// scoring (`None` for all of them).
#[verifier::reject_recursive_types(Id)]
pub struct Pick<Id> {
    score: Arc<Score<Id>>,
    sample: Option<usize>,
    requires_meter: bool,
}

impl<Id> Pick<Id> {
    #[verifier::type_invariant]
    spec fn total(self) -> bool {
        forall|c: Candidate<'_, Id>|
            (self.requires_meter ==> c.latency is Some) ==> self.score.kept.accepts(c)
    }

    /// `s` is a score that the strategy may give candidate `c`.
    pub closed spec fn scores(&self, c: Candidate<'_, Id>, s: Double) -> bool {
        self.score.kept.answers(c, s)
    }

    pub closed spec fn spec_sample(&self) -> Option<usize> {
        self.sample
    }

    pub closed spec fn spec_requires_meter(&self) -> bool {
        self.requires_meter
    }

    fn keep<F: for<'a, 'b>Fn(&'b Candidate<'a, Id>) -> Double + Send + Sync + 'static>(
        f: F,
        sample: Option<usize>,
        requires_meter: bool,
    ) -> (p: Self)
        requires
            forall|c: Candidate<'_, Id>|
                (requires_meter ==> c.latency is Some) ==> call_requires(f, (&c,)),
        ensures
            p.spec_sample() == sample,
            p.spec_requires_meter() == requires_meter,
            forall|c: Candidate<'_, Id>, s: Double| #[trigger]
                p.scores(c, s) == call_ensures(f, (&c,), s),
    {
        let scorer = Scorer { f };
        assert(forall|c: Candidate<'_, Id>|
            (requires_meter ==> c.latency is Some) ==> #[trigger] scorer.accepts(c));
        assert(forall|c: Candidate<'_, Id>, s: Double| #[trigger]
            scorer.answers(c, s) == call_ensures(f, (&c,), s));
        let score = Score { kept: Box::new(scorer) };
        Pick { score: Arc::new(score), sample, requires_meter }
    }

    /// The least score over all healthy candidates.
    pub fn by_score<F: for<'a, 'b>Fn(&'b Candidate<'a, Id>) -> Double + Send + Sync + 'static>(
        f: F,
    ) -> (p: Self)
        requires
            forall|c: Candidate<'_, Id>| call_requires(f, (&c,)),
        ensures
            p.spec_sample() is None,
            !p.spec_requires_meter(),
            forall|c: Candidate<'_, Id>, s: Double| #[trigger]
                p.scores(c, s) == call_ensures(f, (&c,), s),
    {
        Self::keep(f, None, false)
    }

    /// The least score over `k` distinct candidates drawn at random, or over all of
    /// them where there are no more than `k`. A router refuses a `k` of zero.
    pub fn by_sampled_score<
        F: for<'a, 'b>Fn(&'b Candidate<'a, Id>) -> Double + Send + Sync + 'static,
    >(k: usize, f: F) -> (p: Self)
        requires
            forall|c: Candidate<'_, Id>| call_requires(f, (&c,)),
        ensures
            p.spec_sample() == Some(k),
            !p.spec_requires_meter(),
            forall|c: Candidate<'_, Id>, s: Double| #[trigger]
                p.scores(c, s) == call_ensures(f, (&c,), s),
    {
        Self::keep(f, Some(k), false)
    }

    /// Ordered failover: the first healthy candidate.
    pub fn first_healthy() -> (p: Self)
        ensures
            p.spec_sample() is None,
            !p.spec_requires_meter(),
            forall|c: Candidate<'_, Id>, s: Double| #[trigger]
                p.scores(c, s) ==> s.bits == crate::double::count_bits(c.index as nat),
    {
        Self::by_score(
            |c: &Candidate<'_, Id>| -> (s: Double)
                ensures s.bits == crate::double::count_bits(c.index as nat)
            { Double::from_count(c.index() as u64) },
        )
    }

    /// The candidate that was chosen least often.
    pub fn round_robin() -> (p: Self)
        ensures
            p.spec_sample() is None,
            !p.spec_requires_meter(),
            forall|c: Candidate<'_, Id>, s: Double| #[trigger]
                p.scores(c, s) ==> s.bits == crate::double::count_bits(c.pick_count as nat),
    {
        Self::by_score(
            |c: &Candidate<'_, Id>| -> (s: Double)
                ensures s.bits == crate::double::count_bits(c.pick_count as nat)
            { Double::from_count(c.pick_count()) },
        )
    }

    /// The candidate with the fewest outstanding calls.
    pub fn least_in_flight() -> (p: Self)
        ensures
            p.spec_sample() is None,
            !p.spec_requires_meter(),
            forall|c: Candidate<'_, Id>, s: Double| #[trigger]
                p.scores(c, s) ==> s.bits == crate::double::count_bits(c.in_flight as nat),
    {
        Self::by_score(
            |c: &Candidate<'_, Id>| -> (s: Double)
                ensures s.bits == crate::double::count_bits(c.in_flight as nat)
            { Double::from_count(c.in_flight() as u64) },
        )
    }

    /// The one with the fewer outstanding calls of two candidates drawn at random.
    pub fn p2c() -> (p: Self)
        ensures
            p.spec_sample() == Some(2usize),
            !p.spec_requires_meter(),
            forall|c: Candidate<'_, Id>, s: Double| #[trigger]
                p.scores(c, s) ==> s.bits == crate::double::count_bits(c.in_flight as nat),
    {
        Self::by_sampled_score(
            2,
            |c: &Candidate<'_, Id>| -> (s: Double)
                ensures s.bits == crate::double::count_bits(c.in_flight as nat)
            { Double::from_count(c.in_flight() as u64) },
        )
    }

    /// The candidate with the fewest outstanding calls per unit of weight. `share`
    /// computes that score from the number of calls and the weight.
    pub fn weighted_least_in_flight<
        F: Fn(usize, Double) -> Double + Send + Sync + 'static,
    >(share: F) -> (p: Self)
        requires
            forall|n: usize, w: Double| call_requires(share, (n, w)),
        ensures
            p.spec_sample() is None,
            !p.spec_requires_meter(),
            forall|c: Candidate<'_, Id>, s: Double| #[trigger]
                p.scores(c, s) ==> call_ensures(share, (c.in_flight, c.weight), s),
    {
        Self::by_score(
            move |c: &Candidate<'_, Id>| -> (s: Double)
                ensures call_ensures(share, (c.in_flight, c.weight), s)
            { share(c.in_flight(), c.weight()) },
        )
    }

    /// The one with the lower expected latency of two candidates drawn at random.
    /// `cost` computes it from the meter's reading and the number of outstanding
    /// calls. A router refuses this strategy where it has no meter.
    pub fn peak_ewma<F: Fn(Duration, usize) -> Double + Send + Sync + 'static>(cost: F) -> (p: Self)
        requires
            forall|l: Duration, n: usize| call_requires(cost, (l, n)),
        ensures
            p.spec_sample() == Some(2usize),
            p.spec_requires_meter(),
            forall|c: Candidate<'_, Id>, s: Double| #[trigger]
                p.scores(c, s) && c.latency is Some ==> call_ensures(
                    cost,
                    (c.latency->0, c.in_flight),
                    s,
                ),
    {
        Self::keep(
            move |c: &Candidate<'_, Id>| -> (s: Double)
                requires c.latency is Some
                ensures call_ensures(cost, (c.latency->0, c.in_flight), s)
            { cost(c.latency.unwrap(), c.in_flight()) },
            Some(2),
            true,
        )
    }

    /// How many candidates are drawn at random, if not all are scored.
    pub fn sample(&self) -> (k: Option<usize>)
        ensures
            k == self.spec_sample(),
    {
        self.sample
    }

    /// Whether the score reads a meter.
    pub fn requires_meter(&self) -> (b: bool)
        ensures
            b == self.spec_requires_meter(),
    {
        self.requires_meter
    }

    /// A sample of none is not valid.
    pub fn sample_is_valid(&self) -> (b: bool)
        ensures
            b == (self.spec_sample() != Some(0usize)),
    {
        !matches!(self.sample, Some(0))
    }

    /// Score a candidate.
    pub fn score(&self, c: &Candidate<'_, Id>) -> (s: Double)
        requires
            self.spec_requires_meter() ==> c.latency is Some,
        ensures
            self.scores(*c, s),
    {
        proof {
            use_type_invariant(self);
        }
        self.score.kept.score(c)
    }
}

impl<Id> Clone for Pick<Id> {
    fn clone(&self) -> (p: Self)
        ensures
            p == *self,
    {
        proof {
            use_type_invariant(self);
        }
        Pick {
            score: self.score.clone(),
            sample: self.sample,
            requires_meter: self.requires_meter,
        }
    }
}

} // verus!
