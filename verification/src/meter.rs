//! Latency meters. A meter is a fold over completed calls, so it needs no clock of its
//! own. The built-in one folds successful calls only: a fast failure is the breaker's
//! concern and never a reason to send a member more calls.

use std::sync::Arc;

use vstd::prelude::*;

use crate::double::Double;
use crate::time::{Duration, Instant};

verus! {

/// A completed call, as a meter sees it.
#[derive(Debug, Clone, Copy)]
pub struct Sample {
    /// How long the call took.
    pub latency: Duration,
    /// When it completed.
    pub at: Instant,
    /// When the meter was last folded, or `at` the first time.
    pub last_update: Instant,
    /// Outstanding calls at completion.
    pub in_flight: usize,
    /// Whether the call succeeded. The fold decides what a failure means.
    pub ok: bool,
}

/// A member's reading.
#[derive(Debug, Clone, Copy)]
pub struct PeakEwmaState {
    pub value_secs: Double,
    pub last_update: Instant,
}

/// What [`Meter`] keeps of a closure.
pub trait FoldSample: Send + Sync {
    spec fn accepts(&self, prev: Option<PeakEwmaState>, s: Sample) -> bool;

    spec fn answers(
        &self,
        prev: Option<PeakEwmaState>,
        s: Sample,
        next: PeakEwmaState,
    ) -> bool;

    fn fold(&self, prev: Option<PeakEwmaState>, s: &Sample) -> (next: PeakEwmaState)
        requires
            self.accepts(prev, *s),
        ensures
            self.answers(prev, *s, next),
    ;
}

/// A closure as a fold.
pub struct Folder<F> {
    pub f: F,
}

impl<F: Fn(Option<PeakEwmaState>, &Sample) -> PeakEwmaState + Send + Sync> FoldSample for Folder<
    F,
> {
    open spec fn accepts(&self, prev: Option<PeakEwmaState>, s: Sample) -> bool {
        call_requires(self.f, (prev, &s))
    }

    open spec fn answers(
        &self,
        prev: Option<PeakEwmaState>,
        s: Sample,
        next: PeakEwmaState,
    ) -> bool {
        call_ensures(self.f, (prev, &s), next)
    }

    fn fold(&self, prev: Option<PeakEwmaState>, s: &Sample) -> (next: PeakEwmaState) {
        (self.f)(prev, s)
    }
}

/// A kept fold.
pub struct Fold {
    kept: Box<dyn FoldSample>,
}

/// A latency meter. Clones share the fold.
pub struct Meter {
    fold: Arc<Fold>,
}

/// A fold of the built-in meter: a failure leaves the reading as it is, or seeds it with
/// zero; the first success is taken as observed, and a later one blended in, by the age of
/// the reading, but never below what was observed.
pub open spec fn peak_folds<
    S: Fn(Duration) -> Double,
    B: Fn(Double, Duration, Double) -> Double,
>(seconds: S, blend: B, prev: Option<PeakEwmaState>, s: Sample, next: PeakEwmaState) -> bool {
    match (s.ok, prev) {
        (false, Some(p)) => next == p,
        (false, None) => next == (PeakEwmaState {
            value_secs: Double { bits: 0 },
            last_update: s.at,
        }),
        (true, None) => next.last_update == s.at && call_ensures(
            seconds,
            (s.latency,),
            next.value_secs,
        ),
        (true, Some(p)) => next.last_update == s.at && exists|observed: Double, blended: Double|
            {
                &&& #[trigger] call_ensures(seconds, (s.latency,), observed)
                &&& #[trigger] call_ensures(
                    blend,
                    (p.value_secs, s.at.spec_since(p.last_update), observed),
                    blended,
                )
                &&& next.value_secs == blended.spec_larger(observed)
            },
    }
}

/// The built-in fold.
fn peak_fold<S: Fn(Duration) -> Double, B: Fn(Double, Duration, Double) -> Double>(
    seconds: &S,
    blend: &B,
    prev: Option<PeakEwmaState>,
    s: &Sample,
) -> (next: PeakEwmaState)
    requires
        forall|d: Duration| call_requires(*seconds, (d,)),
        forall|v: Double, d: Duration, o: Double| call_requires(*blend, (v, d, o)),
    ensures
        peak_folds(*seconds, *blend, prev, *s, next),
{
    if !s.ok {
        return match prev {
            Some(p) => p,
            None => PeakEwmaState { value_secs: Double::from_bits(0), last_update: s.at },
        };
    }
    let observed = seconds(s.latency);
    match prev {
        None => PeakEwmaState { value_secs: observed, last_update: s.at },
        Some(p) => {
            let blended = blend(p.value_secs, s.at.duration_since(p.last_update), observed);
            let value_secs = blended.larger(observed);
            PeakEwmaState { value_secs, last_update: s.at }
        },
    }
}

impl Meter {
    #[verifier::type_invariant]
    spec fn total(self) -> bool {
        forall|prev: Option<PeakEwmaState>, s: Sample| self.fold.kept.accepts(prev, s)
    }

    /// `next` may be the reading after sample `s`.
    pub closed spec fn folds(
        &self,
        prev: Option<PeakEwmaState>,
        s: Sample,
        next: PeakEwmaState,
    ) -> bool {
        self.fold.kept.answers(prev, s, next)
    }

    /// A time-decayed peak average. `seconds` converts a latency to a reading, and
    /// `blend` mixes a reading, the time since it was taken and a new observation. Where
    /// the mixture is below the observation, the observation counts.
    pub fn peak_ewma<
        S: Fn(Duration) -> Double + Send + Sync + 'static,
        B: Fn(Double, Duration, Double) -> Double + Send + Sync + 'static,
    >(seconds: S, blend: B) -> (m: Meter)
        requires
            forall|d: Duration| call_requires(seconds, (d,)),
            forall|v: Double, d: Duration, o: Double| call_requires(blend, (v, d, o)),
        ensures
            forall|prev: Option<PeakEwmaState>, s: Sample, next: PeakEwmaState| #[trigger]
                m.folds(prev, s, next) ==> peak_folds(seconds, blend, prev, s, next),
    {
        Self::custom(
            move |prev: Option<PeakEwmaState>, s: &Sample| -> (next: PeakEwmaState)
                ensures peak_folds(seconds, blend, prev, *s, next)
            { peak_fold(&seconds, &blend, prev, s) },
        )
    }

    /// A meter with a fold of your own.
    pub fn custom<
        F: Fn(Option<PeakEwmaState>, &Sample) -> PeakEwmaState + Send + Sync + 'static,
    >(f: F) -> (m: Meter)
        requires
            forall|prev: Option<PeakEwmaState>, s: Sample| call_requires(f, (prev, &s)),
        ensures
            forall|prev: Option<PeakEwmaState>, s: Sample, next: PeakEwmaState| #[trigger]
                m.folds(prev, s, next) == call_ensures(f, (prev, &s), next),
    {
        let folder = Folder { f };
        assert(forall|prev: Option<PeakEwmaState>, s: Sample| #[trigger] folder.accepts(prev, s));
        assert(forall|prev: Option<PeakEwmaState>, s: Sample, next: PeakEwmaState| #[trigger]
            folder.answers(prev, s, next) == call_ensures(f, (prev, &s), next));
        let fold = Fold { kept: Box::new(folder) };
        Meter { fold: Arc::new(fold) }
    }

    /// The reading after sample `s`.
    pub fn fold(&self, prev: Option<PeakEwmaState>, s: &Sample) -> (next: PeakEwmaState)
        ensures
            self.folds(prev, *s, next),
    {
        proof {
            use_type_invariant(self);
        }
        self.fold.kept.fold(prev, s)
    }
}

impl Clone for Meter {
    fn clone(&self) -> (m: Self)
        ensures
            m == *self,
    {
        proof {
            use_type_invariant(self);
        }
        Meter { fold: self.fold.clone() }
    }
}

/// A reading of the built-in meter is never below the latency of the success that it was
/// last folded with, and stands for the time of that call.
pub proof fn law_readings_cover_the_latency<
    S: Fn(Duration) -> Double,
    B: Fn(Double, Duration, Double) -> Double,
>(seconds: S, blend: B, prev: Option<PeakEwmaState>, s: Sample, next: PeakEwmaState)
    requires
        s.ok,
        forall|o: Double| #[trigger] call_ensures(seconds, (s.latency,), o) ==> !o.nan(),
        peak_folds(seconds, blend, prev, s, next),
    ensures
        exists|o: Double| #[trigger]
            call_ensures(seconds, (s.latency,), o) && o.rank() <= next.value_secs.rank() && (prev
                is None ==> next.value_secs == o),
        !next.value_secs.nan(),
        next.last_update == s.at,
{
    if prev is None {
        assert(call_ensures(seconds, (s.latency,), next.value_secs));
    }
}

/// A reading of the built-in meter is never above both the reading before and the latency
/// of the success, as far as the mixture is not.
pub proof fn law_readings_stay_between<
    S: Fn(Duration) -> Double,
    B: Fn(Double, Duration, Double) -> Double,
>(seconds: S, blend: B, prev: PeakEwmaState, s: Sample, next: PeakEwmaState)
    requires
        s.ok,
        forall|d: Duration, o: Double, mixed: Double| #[trigger]
            call_ensures(blend, (prev.value_secs, d, o), mixed) ==> mixed.rank()
                <= prev.value_secs.spec_larger(o).rank(),
        !prev.value_secs.nan(),
        peak_folds(seconds, blend, Some(prev), s, next),
    ensures
        exists|o: Double| #[trigger]
            call_ensures(seconds, (s.latency,), o) && (!o.nan() ==> next.value_secs.rank()
                <= prev.value_secs.spec_larger(o).rank()),
{
}

/// A failed call never changes a reading of the built-in meter, so it can make no member
/// look faster than it is.
pub proof fn law_failures_leave_the_reading<
    S: Fn(Duration) -> Double,
    B: Fn(Double, Duration, Double) -> Double,
>(seconds: S, blend: B, prev: PeakEwmaState, s: Sample, next: PeakEwmaState)
    requires
        !s.ok,
        peak_folds(seconds, blend, Some(prev), s, next),
    ensures
        next == prev,
{
}

/// A reading of the built-in meter mixes the one before with what was observed, by the time
/// that has passed since: where the mixture is not below the observation, it is the reading.
pub proof fn law_readings_are_mixed<
    S: Fn(Duration) -> Double,
    B: Fn(Double, Duration, Double) -> Double,
>(seconds: S, blend: B, prev: PeakEwmaState, s: Sample, next: PeakEwmaState)
    requires
        s.ok,
        prev.last_update.nanos <= s.at.nanos,
        peak_folds(seconds, blend, Some(prev), s, next),
        forall|o: Double| #[trigger] call_ensures(seconds, (s.latency,), o) ==> !o.nan(),
        forall|d: Duration, o: Double, m: Double| #[trigger]
            call_ensures(blend, (prev.value_secs, d, o), m) ==> !m.nan(),
    ensures
        exists|o: Double, m: Double, age: Duration|
            {
                &&& #[trigger] call_ensures(seconds, (s.latency,), o)
                &&& #[trigger] call_ensures(blend, (prev.value_secs, age, o), m)
                &&& prev.last_update.nanos + age.nanos == s.at.nanos
                &&& m.rank() >= o.rank() ==> next.value_secs == m
                &&& m.rank() < o.rank() ==> next.value_secs == o
            },
{
    let age = s.at.spec_since(prev.last_update);
    let (o, m) = choose|o: Double, m: Double|
        {
            &&& #[trigger] call_ensures(seconds, (s.latency,), o)
            &&& #[trigger] call_ensures(blend, (prev.value_secs, age, o), m)
            &&& next.value_secs == m.spec_larger(o)
        };
    assert(call_ensures(seconds, (s.latency,), o));
    assert(call_ensures(blend, (prev.value_secs, age, o), m));
}

/// The first call of a member sets its reading: to what was observed if it succeeded, and to
/// nothing at all if it failed, as of its completion.
pub proof fn law_first_calls_set_the_reading<
    S: Fn(Duration) -> Double,
    B: Fn(Double, Duration, Double) -> Double,
>(seconds: S, blend: B, s: Sample, next: PeakEwmaState)
    requires
        peak_folds(seconds, blend, None, s, next),
    ensures
        next.last_update == s.at,
        s.ok ==> call_ensures(seconds, (s.latency,), next.value_secs),
        !s.ok ==> next.value_secs.bits == 0,
{
}

} // verus!
