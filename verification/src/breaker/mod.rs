//! Circuit breaker: turns calls away while a dependency is failing, and lets a few
//! probes through once it has had time to recover.

pub mod laws;
pub mod window;

use vstd::prelude::*;

use crate::breaker::window::{Tally, Window};
use crate::classify::ErrorPredicate;
use crate::double::{Double, Ratio};
use crate::error::BreakerState;
use crate::time::{Duration, Instant};

verus! {

/// What trips the breaker.
#[derive(Debug, Clone, Copy)]
pub enum Trip {
    /// So many failures in a row.
    Consecutive { threshold: u32 },
    /// A share of failures over a window, once enough outcomes were seen.
    FailureRatio { ratio: Ratio, min_throughput: u32, window: Duration },
}

/// What is to trip the breaker, as it was configured.
#[derive(Debug, Clone, Copy)]
pub enum TripRule {
    /// So many failures in a row.
    Consecutive { threshold: u32 },
    /// A share of failures over a window, once enough outcomes were seen.
    FailureRatio { ratio: Double, min_throughput: u32, window: Duration },
}

impl TripRule {
    /// What trips a breaker under this rule.
    pub open spec fn spec_trip(self) -> Trip {
        match self {
            TripRule::Consecutive { threshold } => Trip::Consecutive { threshold },
            TripRule::FailureRatio { ratio, min_throughput, window } => Trip::FailureRatio {
                ratio: Ratio::of(ratio),
                min_throughput,
                window,
            },
        }
    }

    fn trip(self) -> (t: Trip)
        ensures
            t == self.spec_trip(),
    {
        match self {
            TripRule::Consecutive { threshold } => Trip::Consecutive { threshold },
            TripRule::FailureRatio { ratio, min_throughput, window } => Trip::FailureRatio {
                ratio: Ratio::new(ratio),
                min_throughput,
                window,
            },
        }
    }
}

/// Circuit breaker configuration.
///
/// `record_when` decides which errors of the operation count as faults; without it
/// every error does.
#[verifier::reject_recursive_types(E)]
pub struct CircuitBreaker<E> {
    trip: TripRule,
    open_for: Duration,
    half_open_max_calls: u32,
    record_when: Option<ErrorPredicate<E>>,
}

/// What a [`CircuitBreaker`] is configured to do.
#[verifier::reject_recursive_types(E)]
pub ghost struct BreakerConfig<E> {
    pub trip: TripRule,
    pub open_for: Duration,
    pub half_open_max_calls: u32,
    pub record_when: Option<ErrorPredicate<E>>,
}

impl<E> View for CircuitBreaker<E> {
    type V = BreakerConfig<E>;

    closed spec fn view(&self) -> BreakerConfig<E> {
        BreakerConfig {
            trip: self.trip,
            open_for: self.open_for,
            half_open_max_calls: self.half_open_max_calls,
            record_when: self.record_when,
        }
    }
}

/// `n`, but at least one.
pub open spec fn at_least_one(n: u32) -> u32 {
    if n == 0 {
        1
    } else {
        n
    }
}

impl<E> CircuitBreaker<E> {
    #[verifier::type_invariant]
    spec fn usable(self) -> bool {
        &&& self.half_open_max_calls >= 1
        &&& self.trip matches TripRule::Consecutive { threshold } ==> threshold >= 1
    }

    /// Trip after `n` failures in a row. The breaker stays open for 30 s and probes
    /// with one call, unless set otherwise.
    pub fn consecutive_failures(n: u32) -> (b: Self)
        ensures
            b@ == (BreakerConfig::<E> {
                trip: TripRule::Consecutive { threshold: at_least_one(n) },
                open_for: Duration { nanos: 30_000_000_000 },
                half_open_max_calls: 1,
                record_when: None,
            }),
    {
        CircuitBreaker {
            trip: TripRule::Consecutive {
                threshold: if n == 0 {
                    1
                } else {
                    n
                },
            },
            open_for: Duration::from_secs(30),
            half_open_max_calls: 1,
            record_when: None,
        }
    }

    /// Trip when a share of failures is reached over a window: half of at least ten
    /// outcomes in 30 s, unless set otherwise.
    pub fn failure_ratio() -> (b: Self)
        ensures
            b@ == (BreakerConfig::<E> {
                trip: TripRule::FailureRatio {
                    ratio: Double { bits: 0x3FE0_0000_0000_0000 },
                    min_throughput: 10,
                    window: Duration { nanos: 30_000_000_000 },
                },
                open_for: Duration { nanos: 30_000_000_000 },
                half_open_max_calls: 1,
                record_when: None,
            }),
    {
        CircuitBreaker {
            trip: TripRule::FailureRatio {
                ratio: Double { bits: 0x3FE0_0000_0000_0000 },
                min_throughput: 10,
                window: Duration::from_secs(30),
            },
            open_for: Duration::from_secs(30),
            half_open_max_calls: 1,
            record_when: None,
        }
    }

    /// Set the share of failures that trips the breaker. A policy is built only where
    /// it is above zero and at most one; a breaker that is compiled on its own takes it
    /// clamped to the unit interval. A breaker that counts failures in a row has none.
    pub fn failure_ratio_value(self, ratio: Double) -> (b: Self)
        ensures
            b@ == (BreakerConfig {
                trip: match self@.trip {
                    TripRule::FailureRatio { ratio: _, min_throughput, window } => TripRule::FailureRatio {
                        ratio,
                        min_throughput,
                        window,
                    },
                    TripRule::Consecutive { threshold } => TripRule::Consecutive { threshold },
                },
                ..self@
            }),
    {
        proof {
            use_type_invariant(&self);
        }
        let trip = match self.trip {
            TripRule::FailureRatio { ratio: _, min_throughput, window } => TripRule::FailureRatio {
                ratio,
                min_throughput,
                window,
            },
            TripRule::Consecutive { threshold } => TripRule::Consecutive { threshold },
        };
        CircuitBreaker { trip, ..self }
    }

    /// The same as [`CircuitBreaker::failure_ratio_value`], under a shorter name.
    pub fn ratio(self, ratio: Double) -> (b: Self)
        ensures
            b@ == (BreakerConfig {
                trip: match self@.trip {
                    TripRule::FailureRatio { ratio: _, min_throughput, window } => TripRule::FailureRatio {
                        ratio,
                        min_throughput,
                        window,
                    },
                    TripRule::Consecutive { threshold } => TripRule::Consecutive { threshold },
                },
                ..self@
            }),
    {
        self.failure_ratio_value(ratio)
    }

    /// Set how many outcomes the window must hold before a share of them trips.
    pub fn minimum_throughput(self, n: u32) -> (b: Self)
        ensures
            b@ == (BreakerConfig {
                trip: match self@.trip {
                    TripRule::FailureRatio { ratio, min_throughput: _, window } => TripRule::FailureRatio {
                        ratio,
                        min_throughput: n,
                        window,
                    },
                    TripRule::Consecutive { threshold } => TripRule::Consecutive { threshold },
                },
                ..self@
            }),
    {
        proof {
            use_type_invariant(&self);
        }
        let trip = match self.trip {
            TripRule::FailureRatio { ratio, min_throughput: _, window } => TripRule::FailureRatio {
                ratio,
                min_throughput: n,
                window,
            },
            TripRule::Consecutive { threshold } => TripRule::Consecutive { threshold },
        };
        CircuitBreaker { trip, ..self }
    }

    /// Set the length of the window.
    pub fn sampling_window(self, d: Duration) -> (b: Self)
        ensures
            b@ == (BreakerConfig {
                trip: match self@.trip {
                    TripRule::FailureRatio { ratio, min_throughput, window: _ } => TripRule::FailureRatio {
                        ratio,
                        min_throughput,
                        window: d,
                    },
                    TripRule::Consecutive { threshold } => TripRule::Consecutive { threshold },
                },
                ..self@
            }),
    {
        proof {
            use_type_invariant(&self);
        }
        let trip = match self.trip {
            TripRule::FailureRatio { ratio, min_throughput, window: _ } => TripRule::FailureRatio {
                ratio,
                min_throughput,
                window: d,
            },
            TripRule::Consecutive { threshold } => TripRule::Consecutive { threshold },
        };
        CircuitBreaker { trip, ..self }
    }

    pub fn open_for(self, d: Duration) -> (b: Self)
        ensures
            b@ == (BreakerConfig { open_for: d, ..self@ }),
    {
        proof {
            use_type_invariant(&self);
        }
        CircuitBreaker { open_for: d, ..self }
    }

    pub fn half_open_max_calls(self, n: u32) -> (b: Self)
        ensures
            b@ == (BreakerConfig { half_open_max_calls: at_least_one(n), ..self@ }),
    {
        proof {
            use_type_invariant(&self);
        }
        CircuitBreaker {
            half_open_max_calls: if n == 0 {
                1
            } else {
                n
            },
            ..self
        }
    }

    /// Count only the errors on which `pred` holds as faults.
    pub fn record_when<F: Fn(&E) -> bool + Send + Sync + 'static>(self, pred: F) -> (b: Self)
        requires
            forall|e: E| call_requires(pred, (&e,)),
        ensures
            b@.record_when is Some,
            forall|e: E, counts: bool| #[trigger]
                b@.record_when->0.answers(e, counts) == call_ensures(pred, (&e,), counts),
            b@ == (BreakerConfig { record_when: b@.record_when, ..self@ }),
    {
        proof {
            use_type_invariant(&self);
        }
        CircuitBreaker { record_when: Some(ErrorPredicate::new(pred)), ..self }
    }

    /// What trips the breaker, as it was configured.
    pub fn rule(&self) -> (t: TripRule)
        ensures
            t == self@.trip,
    {
        self.trip
    }

    /// The live breaker, closed, and the predicate on its faults.
    pub fn compile(self) -> (r: (BreakerRuntime, Option<ErrorPredicate<E>>))
        ensures
            r.0@ == BreakerModel::closed(
                self@.trip.spec_trip(),
                self@.open_for,
                self@.half_open_max_calls,
            ),
            r.0@.wf(),
            r.1 == self@.record_when,
    {
        proof {
            use_type_invariant(&self);
        }
        let trip = self.trip.trip();
        (BreakerRuntime::new(trip, self.open_for, self.half_open_max_calls), self.record_when)
    }
}

/// The state that the last call left the breaker in.
#[derive(Debug, Clone, Copy, PartialEq, Eq, Structural)]
pub enum Latch {
    Closed,
    /// Calls are turned away until `until`.
    Open { until: Instant },
    /// Probes are under way.
    HalfOpen { in_flight: u32, successes: u32 },
}

/// A live breaker.
#[derive(Debug)]
pub struct BreakerRuntime {
    latch: Latch,
    trip: Trip,
    open_for: Duration,
    half_open_max_calls: u32,
    consecutive_failures: u32,
    window: Window,
}

/// The state of a live breaker.
#[verifier::ext_equal]
pub ghost struct BreakerModel {
    pub latch: Latch,
    pub trip: Trip,
    pub open_for: Duration,
    pub half_open_max_calls: u32,
    pub consecutive_failures: u32,
    pub span: Duration,
    pub buckets: Seq<Tally>,
}

impl BreakerModel {
    /// A new breaker.
    pub open spec fn closed(trip: Trip, open_for: Duration, half_open_max_calls: u32) -> Self {
        BreakerModel {
            latch: Latch::Closed,
            trip,
            open_for,
            half_open_max_calls,
            consecutive_failures: 0,
            span: match trip {
                Trip::FailureRatio { ratio: _, min_throughput: _, window } => window,
                Trip::Consecutive { .. } => Duration { nanos: 1_000_000_000 },
            },
            buckets: Seq::empty(),
        }
    }

    /// What the breaker's configuration promises of its state.
    pub open spec fn wf(self) -> bool {
        &&& self.half_open_max_calls >= 1
        &&& self.trip matches Trip::Consecutive { threshold } ==> threshold >= 1
        &&& self.latch matches Latch::HalfOpen { in_flight, successes } ==> {
            &&& in_flight <= self.half_open_max_calls
            &&& successes < self.half_open_max_calls
        }
    }

    pub open spec fn state(self) -> BreakerState {
        match self.latch {
            Latch::Closed => BreakerState::Closed,
            Latch::Open { .. } => BreakerState::Open,
            Latch::HalfOpen { .. } => BreakerState::HalfOpen,
        }
    }

    /// The state as it stands at `now`: an open breaker whose time is up counts as
    /// half open although no call has arrived yet.
    pub open spec fn state_at(self, now: Instant) -> BreakerState {
        match self.latch {
            Latch::Open { until } => if now.nanos >= until.nanos {
                BreakerState::HalfOpen
            } else {
                BreakerState::Open
            },
            _ => self.state(),
        }
    }

    /// When the cooldown ends, while it lasts.
    pub open spec fn cooling_until(self, now: Instant) -> Option<Instant> {
        match self.latch {
            Latch::Open { until } => if now.nanos < until.nanos {
                Some(until)
            } else {
                None
            },
            _ => None,
        }
    }

    /// A call at `now` is let through.
    pub open spec fn admits(self, now: Instant) -> bool {
        match self.latch {
            Latch::Closed => true,
            Latch::Open { until } => now.nanos >= until.nanos,
            Latch::HalfOpen { in_flight, successes: _ } => in_flight < self.half_open_max_calls,
        }
    }

    /// The breaker after a call at `now` asked to pass.
    pub open spec fn after_gate(self, now: Instant) -> Self {
        if self.admits(now) {
            match self.latch {
                Latch::Closed => self,
                Latch::Open { .. } => BreakerModel {
                    latch: Latch::HalfOpen { in_flight: 1, successes: 0 },
                    ..self
                },
                Latch::HalfOpen { in_flight, successes } => BreakerModel {
                    latch: Latch::HalfOpen { in_flight: (in_flight + 1) as u32, successes },
                    ..self
                },
            }
        } else {
            self
        }
    }

    pub open spec fn opened(self, now: Instant) -> Self {
        BreakerModel { latch: Latch::Open { until: now.spec_after(self.open_for) }, ..self }
    }

    /// The last probe that is needed to close the breaker succeeds now.
    pub open spec fn recovers(self) -> bool {
        self.latch matches Latch::HalfOpen { in_flight: _, successes } && successes + 1
            >= self.half_open_max_calls
    }

    /// The breaker after a success at `now`.
    pub open spec fn after_success(self, now: Instant) -> Self {
        match self.latch {
            Latch::HalfOpen { in_flight, successes } => if self.recovers() {
                BreakerModel {
                    latch: Latch::Closed,
                    consecutive_failures: 0,
                    buckets: Seq::empty(),
                    ..self
                }
            } else {
                BreakerModel {
                    latch: Latch::HalfOpen {
                        in_flight: if in_flight == 0 {
                            0
                        } else {
                            (in_flight - 1) as u32
                        },
                        successes: (successes + 1) as u32,
                    },
                    ..self
                }
            },
            _ => BreakerModel {
                consecutive_failures: 0,
                buckets: window::recorded(self.buckets, now, self.span, false),
                ..self
            },
        }
    }

    /// What was recorded by `now` is reason to open.
    pub open spec fn trips(self, now: Instant) -> bool {
        match self.trip {
            Trip::Consecutive { threshold } => self.consecutive_failures >= threshold,
            Trip::FailureRatio { ratio, min_throughput, window: _ } => {
                let seen = window::kept(self.buckets, now, self.span);
                let failures = window::counted(window::failures_in(seen));
                let total = window::counted(window::total_in(seen));
                total >= min_throughput && crate::double::share_reaches(
                    failures as nat,
                    total as nat,
                    ratio.spec_value(),
                )
            },
        }
    }

    /// The breaker with a failure at `now` on record, before it is judged.
    pub open spec fn with_failure(self, now: Instant) -> Self {
        BreakerModel {
            consecutive_failures: if self.consecutive_failures < u32::MAX {
                (self.consecutive_failures + 1) as u32
            } else {
                u32::MAX
            },
            buckets: window::recorded(self.buckets, now, self.span, true),
            ..self
        }
    }

    /// A failure at `now` opens the breaker, or keeps it open for longer.
    pub open spec fn fails(self, now: Instant) -> bool {
        self.latch is HalfOpen || self.with_failure(now).trips(now)
    }

    /// A failure at `now` opens the breaker, which was not open before.
    pub open spec fn opens(self, now: Instant) -> bool {
        self.fails(now) && self.latch !is Open
    }

    /// The breaker after the window was read at `now`.
    pub open spec fn swept(self, now: Instant) -> Self {
        match self.trip {
            Trip::Consecutive { .. } => self,
            Trip::FailureRatio { .. } => BreakerModel {
                buckets: window::kept(self.buckets, now, self.span),
                ..self
            },
        }
    }

    /// The breaker after a failure at `now`.
    pub open spec fn after_failure(self, now: Instant) -> Self {
        if self.latch is HalfOpen {
            self.opened(now)
        } else if self.fails(now) {
            self.with_failure(now).swept(now).opened(now)
        } else {
            self.with_failure(now).swept(now)
        }
    }
}

impl View for BreakerRuntime {
    type V = BreakerModel;

    closed spec fn view(&self) -> BreakerModel {
        BreakerModel {
            latch: self.latch,
            trip: self.trip,
            open_for: self.open_for,
            half_open_max_calls: self.half_open_max_calls,
            consecutive_failures: self.consecutive_failures,
            span: self.window.span,
            buckets: self.window.buckets@,
        }
    }
}

impl BreakerRuntime {
    fn new(trip: Trip, open_for: Duration, half_open_max_calls: u32) -> (b: BreakerRuntime)
        ensures
            b@ == BreakerModel::closed(trip, open_for, half_open_max_calls),
    {
        let span = match trip {
            Trip::FailureRatio { ratio: _, min_throughput: _, window } => window,
            Trip::Consecutive { .. } => Duration::from_secs(1),
        };
        BreakerRuntime {
            latch: Latch::Closed,
            trip,
            open_for,
            half_open_max_calls,
            consecutive_failures: 0,
            window: Window::new(span),
        }
    }

    /// The state that the last call left the breaker in. It does not account for a
    /// cooldown that has run out since: see [`BreakerRuntime::state_at`].
    pub fn state(&self) -> (s: BreakerState)
        ensures
            s == self@.state(),
    {
        match self.latch {
            Latch::Closed => BreakerState::Closed,
            Latch::Open { .. } => BreakerState::Open,
            Latch::HalfOpen { .. } => BreakerState::HalfOpen,
        }
    }

    /// The state as it stands at `now`. An open breaker whose cooldown has run out
    /// is reported as half open, so that a caller who looks for a healthy target
    /// sees the recovery on time.
    pub fn state_at(&self, now: Instant) -> (s: BreakerState)
        ensures
            s == self@.state_at(now),
    {
        match self.latch {
            Latch::Open { until } => if now.nanos >= until.nanos {
                BreakerState::HalfOpen
            } else {
                BreakerState::Open
            },
            _ => self.state(),
        }
    }

    /// When the cooldown ends, while it lasts.
    pub fn cooling_until(&self, now: Instant) -> (t: Option<Instant>)
        ensures
            t == self@.cooling_until(now),
    {
        match self.latch {
            Latch::Open { until } => if now.nanos < until.nanos {
                Some(until)
            } else {
                None
            },
            _ => None,
        }
    }

    /// Ask to let a call pass. `Ok` lets it through and tells the breaker's state,
    /// `Err` turns it away.
    pub fn gate(&mut self, now: Instant) -> (r: Result<BreakerState, ()>)
        ensures
            final(self)@ == old(self)@.after_gate(now),
            r == (if old(self)@.admits(now) {
                Ok::<BreakerState, ()>(old(self)@.state_at(now))
            } else {
                Err::<BreakerState, ()>(())
            }),
    {
        match self.latch {
            Latch::Closed => Ok(BreakerState::Closed),
            Latch::Open { until } => if now.nanos >= until.nanos {
                self.latch = Latch::HalfOpen { in_flight: 1, successes: 0 };
                Ok(BreakerState::HalfOpen)
            } else {
                Err(())
            },
            Latch::HalfOpen { in_flight, successes } => if in_flight < self.half_open_max_calls {
                self.latch = Latch::HalfOpen { in_flight: in_flight + 1, successes };
                Ok(BreakerState::HalfOpen)
            } else {
                Err(())
            },
        }
    }

    /// Record a success. Returns the new state if the breaker changes it.
    pub fn record_success(&mut self, now: Instant) -> (to: Option<BreakerState>)
        ensures
            final(self)@ == old(self)@.after_success(now),
            to == (if old(self)@.recovers() {
                Some(BreakerState::Closed)
            } else {
                None
            }),
    {
        match self.latch {
            Latch::HalfOpen { in_flight, successes } => {
                let successes: u32 = successes.saturating_add(1);
                if successes >= self.half_open_max_calls {
                    self.close();
                    return Some(BreakerState::Closed);
                }
                self.latch = Latch::HalfOpen { in_flight: in_flight.saturating_sub(1), successes };
                None
            },
            _ => {
                self.consecutive_failures = 0;
                self.window.record(now, false);
                None
            },
        }
    }

    /// Record a failure. Returns the new state if the breaker changes it: one that is
    /// open already may stay open for longer, which is no change.
    pub fn record_failure(&mut self, now: Instant) -> (to: Option<BreakerState>)
        ensures
            final(self)@ == old(self)@.after_failure(now),
            to == (if old(self)@.opens(now) {
                Some(BreakerState::Open)
            } else {
                None
            }),
    {
        match self.latch {
            Latch::HalfOpen { .. } => {
                self.open(now);
                Some(BreakerState::Open)
            },
            _ => {
                let was_open = self.state() == BreakerState::Open;
                self.consecutive_failures = self.consecutive_failures.saturating_add(1);
                self.window.record(now, true);
                if self.should_trip(now) {
                    self.open(now);
                    if was_open {
                        None
                    } else {
                        Some(BreakerState::Open)
                    }
                } else {
                    None
                }
            },
        }
    }

    fn should_trip(&mut self, now: Instant) -> (b: bool)
        ensures
            b == old(self)@.trips(now),
            final(self)@ == old(self)@.swept(now),
    {
        match self.trip {
            Trip::Consecutive { threshold } => self.consecutive_failures >= threshold,
            Trip::FailureRatio { ratio, min_throughput, window: _ } => {
                let (failures, total) = self.window.totals(now);
                total >= min_throughput as u64 && ratio.reached_by(failures, total)
            },
        }
    }

    fn open(&mut self, now: Instant)
        ensures
            final(self)@ == old(self)@.opened(now),
    {
        self.latch = Latch::Open { until: now.saturating_add(self.open_for) };
    }

    fn close(&mut self)
        ensures
            final(self)@ == (BreakerModel {
                latch: Latch::Closed,
                consecutive_failures: 0,
                buckets: Seq::empty(),
                ..old(self)@
            }),
    {
        self.latch = Latch::Closed;
        self.consecutive_failures = 0;
        self.window.clear();
    }
}

} // verus!
