//! The circuit breaker.

use execution_policy::breaker::window::Window;
use execution_policy::breaker::BreakerRuntime;
use execution_policy::runtime::{ManualClock, TestCore};
use execution_policy::{BreakerState, CircuitBreaker, Core, Double, Duration, Instant};

fn t0() -> Instant {
    Instant::from_nanos(1_000_000_000_000)
}

fn after(t: Instant, secs: u64) -> Instant {
    t.saturating_add(Duration::from_secs(secs))
}

fn double(v: f64) -> Double {
    Double::from_bits(v.to_bits())
}

fn virtual_core() -> TestCore<u32> {
    TestCore::new(ManualClock::new())
}

#[test]
fn consecutive_trips_after_threshold() {
    let (mut rt, _) = CircuitBreaker::<()>::consecutive_failures(3)
        .open_for(Duration::from_secs(10))
        .compile();
    let now = t0();
    assert_eq!(rt.gate(now), Ok(BreakerState::Closed));
    rt.record_failure(now);
    rt.record_failure(now);
    assert_eq!(rt.state(), BreakerState::Closed);
    rt.record_failure(now); // 3rd: trip
    assert_eq!(rt.state(), BreakerState::Open);
    assert_eq!(rt.gate(now), Err(())); // rejected while open
}

#[test]
fn success_resets_consecutive() {
    let (mut rt, _) = CircuitBreaker::<()>::consecutive_failures(3).compile();
    let now = t0();
    rt.record_failure(now);
    rt.record_failure(now);
    rt.record_success(now);
    rt.record_failure(now);
    rt.record_failure(now);
    assert_eq!(rt.state(), BreakerState::Closed); // never hit 3 in a row
}

#[test]
fn half_open_probe_then_close_on_success() {
    let (mut rt, _) = CircuitBreaker::<()>::consecutive_failures(2)
        .open_for(Duration::from_secs(5))
        .half_open_max_calls(1)
        .compile();
    let now = t0();
    rt.record_failure(now);
    rt.record_failure(now);
    assert_eq!(rt.state(), BreakerState::Open);
    // Before open_for elapses: still rejected.
    assert_eq!(rt.gate(after(now, 1)), Err(()));
    // After open_for: half-open probe admitted.
    let later = after(now, 6);
    assert_eq!(rt.gate(later), Ok(BreakerState::HalfOpen));
    rt.record_success(later);
    assert_eq!(rt.state(), BreakerState::Closed);
}

#[test]
fn half_open_failure_reopens() {
    let (mut rt, _) = CircuitBreaker::<()>::consecutive_failures(1)
        .open_for(Duration::from_secs(5))
        .compile();
    let now = t0();
    rt.record_failure(now);
    assert_eq!(rt.state(), BreakerState::Open);
    let later = after(now, 6);
    assert_eq!(rt.gate(later), Ok(BreakerState::HalfOpen));
    rt.record_failure(later);
    assert_eq!(rt.state(), BreakerState::Open);
}

#[test]
fn failure_ratio_trips() {
    let (mut rt, _) = CircuitBreaker::<()>::failure_ratio()
        .ratio(double(0.5))
        .minimum_throughput(4)
        .sampling_window(Duration::from_secs(10))
        .compile();
    let now = t0();
    // 2 ok, 2 fail over 4 calls = 50% ratio, throughput 4: trip.
    rt.record_success(now);
    rt.record_success(now);
    rt.record_failure(now);
    rt.record_failure(now);
    assert_eq!(rt.state(), BreakerState::Open);
}

#[test]
fn failure_ratio_respects_min_throughput() {
    let (mut rt, _) = CircuitBreaker::<()>::failure_ratio()
        .ratio(double(0.5))
        .minimum_throughput(10)
        .compile();
    let now = t0();
    rt.record_failure(now);
    rt.record_failure(now); // 100% but only 2 calls < min 10
    assert_eq!(rt.state(), BreakerState::Closed);
}

#[test]
fn state_reports_half_open_after_cooldown_without_a_call() {
    let (mut rt, _) = CircuitBreaker::<()>::consecutive_failures(1)
        .open_for(Duration::from_secs(5))
        .compile();
    let mut core = virtual_core();
    let now = core.now();
    rt.record_failure(now);
    assert_eq!(rt.state_at(now), BreakerState::Open);
    // Advance past the cooldown with no gate or record call in between.
    core.clock.advance(Duration::from_secs(6));
    let later = core.now();
    assert_eq!(
        rt.state_at(later),
        BreakerState::HalfOpen,
        "breaker must report HalfOpen once cooldown elapses, without a call arriving"
    );
    // The latched state hasn't changed yet.
    assert_eq!(rt.state(), BreakerState::Open);
}

#[test]
fn cooling_until_tracks_open_window() {
    let (mut rt, _) = CircuitBreaker::<()>::consecutive_failures(1)
        .open_for(Duration::from_secs(5))
        .compile();
    let mut core = virtual_core();
    let now = core.now();
    // Closed: not cooling.
    assert_eq!(rt.cooling_until(now), None);
    rt.record_failure(now); // trip
    assert_eq!(rt.cooling_until(now), Some(after(now, 5)));
    // Once the window elapses it is no longer cooling (ready to probe).
    core.clock.advance(Duration::from_secs(6));
    assert_eq!(rt.cooling_until(core.now()), None);
}

#[test]
fn cooling_until_none_while_closed() {
    let (mut rt, _) = CircuitBreaker::<()>::consecutive_failures(3).compile();
    let now = t0();
    assert_eq!(rt.cooling_until(now), None);
    rt.record_failure(now); // below threshold: still Closed
    assert_eq!(rt.cooling_until(now), None);
}

#[test]
fn record_when_compiles_predicate() {
    let cb = CircuitBreaker::<i32>::consecutive_failures(1).record_when(|e: &i32| *e >= 500);
    let (_rt, record_when) = cb.compile();
    let p = record_when.expect("predicate present");
    assert!(p.test(&503));
    assert!(!p.test(&404));
}

#[test]
fn a_threshold_of_none_counts_as_one() {
    let (mut rt, _) = CircuitBreaker::<()>::consecutive_failures(0).compile();
    assert_eq!(rt.record_failure(t0()), Some(BreakerState::Open));
    // Open for 30 s unless set otherwise.
    assert_eq!(rt.cooling_until(t0()), Some(after(t0(), 30)));
}

#[test]
fn the_cooldown_ends_on_the_instant() {
    let (mut rt, _) = CircuitBreaker::<()>::consecutive_failures(1)
        .open_for(Duration::from_secs(5))
        .compile();
    rt.record_failure(t0());
    let end = after(t0(), 5);
    let before = Instant::from_nanos(end.nanos - 1);
    assert_eq!(rt.state_at(before), BreakerState::Open);
    assert_eq!(rt.gate(before), Err(()));
    assert_eq!(rt.state_at(end), BreakerState::HalfOpen);
    assert_eq!(rt.gate(end), Ok(BreakerState::HalfOpen));
}

#[test]
fn probes_are_limited_and_all_must_succeed() {
    let (mut rt, _) = CircuitBreaker::<()>::consecutive_failures(1)
        .open_for(Duration::from_secs(5))
        .half_open_max_calls(2)
        .compile();
    rt.record_failure(t0());
    let later = after(t0(), 5);
    assert_eq!(rt.gate(later), Ok(BreakerState::HalfOpen));
    assert_eq!(rt.gate(later), Ok(BreakerState::HalfOpen));
    assert_eq!(rt.gate(later), Err(()));
    assert_eq!(rt.record_success(later), None);
    assert_eq!(rt.state(), BreakerState::HalfOpen);
    // The first probe has ended, so there is room for another.
    assert_eq!(rt.gate(later), Ok(BreakerState::HalfOpen));
    assert_eq!(rt.record_success(later), Some(BreakerState::Closed));
    // A closed breaker starts from scratch.
    assert_eq!(rt.gate(later), Ok(BreakerState::Closed));
}

#[test]
fn late_failures_keep_an_open_breaker_open_for_longer() {
    let (mut rt, _) = CircuitBreaker::<()>::consecutive_failures(1)
        .open_for(Duration::from_secs(5))
        .compile();
    assert_eq!(rt.record_failure(t0()), Some(BreakerState::Open));
    // It was open before, so nothing changes but the time.
    assert_eq!(rt.record_failure(after(t0(), 2)), None);
    assert_eq!(rt.state(), BreakerState::Open);
    assert_eq!(rt.cooling_until(after(t0(), 2)), Some(after(t0(), 7)));
}

fn ratio_breaker(ratio: f64) -> BreakerRuntime {
    let (rt, _) = CircuitBreaker::<()>::failure_ratio()
        .failure_ratio_value(double(ratio))
        .minimum_throughput(1)
        .sampling_window(Duration::from_secs(10))
        .compile();
    rt
}

#[test]
fn failures_outside_the_window_do_not_count() {
    let mut rt = ratio_breaker(0.6);
    for _ in 0..4 {
        rt.record_success(t0());
    }
    assert_eq!(rt.record_failure(after(t0(), 10)), None); // 1 of 5
    // The successes began more than ten seconds ago now.
    assert_eq!(rt.record_failure(after(t0(), 11)), Some(BreakerState::Open)); // 2 of 2
}

#[test]
fn a_ratio_is_clamped_and_setters_mind_the_kind_of_breaker() {
    let mut certain = ratio_breaker(7.0); // counts as 1.0
    assert_eq!(certain.record_failure(t0()), Some(BreakerState::Open));
    let mut mixed = ratio_breaker(7.0);
    mixed.record_success(t0());
    assert_eq!(mixed.record_failure(t0()), None);
    let mut never = ratio_breaker(f64::NAN);
    assert_eq!(never.record_failure(t0()), None);
    let mut always = ratio_breaker(-3.0); // counts as 0.0
    for _ in 0..9 {
        always.record_success(t0());
    }
    assert_eq!(always.record_failure(t0()), Some(BreakerState::Open));
    // A breaker that counts failures in a row has no ratio, throughput or window.
    let (mut rt, _) = CircuitBreaker::<()>::consecutive_failures(2)
        .ratio(double(0.0))
        .minimum_throughput(0)
        .sampling_window(Duration::zero())
        .compile();
    assert_eq!(rt.record_failure(t0()), None);
    assert_eq!(rt.record_failure(t0()), Some(BreakerState::Open));
}

#[test]
fn the_ratio_defaults_to_half_of_ten() {
    let (mut rt, _) = CircuitBreaker::<()>::failure_ratio().compile();
    for _ in 0..5 {
        rt.record_success(t0());
    }
    for _ in 0..4 {
        assert_eq!(rt.record_failure(t0()), None);
    }
    assert_eq!(rt.record_failure(t0()), Some(BreakerState::Open)); // 5 of 10
}

#[test]
fn a_window_counts_what_it_keeps() {
    let mut w = Window::new(Duration::from_secs(10));
    w.record(t0(), true);
    w.record(t0(), false);
    assert_eq!(w.buckets.len(), 1);
    // One second is a tenth of the span: a new bucket begins.
    w.record(after(t0(), 1), true);
    assert_eq!(w.buckets.len(), 2);
    assert_eq!(w.totals(after(t0(), 1)), (2, 3));
    assert_eq!(w.totals(after(t0(), 10)), (2, 3));
    assert_eq!(w.totals(after(t0(), 11)), (1, 1));
    assert_eq!(w.totals(after(t0(), 12)), (0, 0));
    w.record(after(t0(), 12), true);
    w.clear();
    assert_eq!(w.totals(after(t0(), 12)), (0, 0));
    // A span that reaches back before the origin keeps everything.
    let mut early = Window::new(Duration::from_secs(10));
    early.record(Instant::from_nanos(0), true);
    assert_eq!(early.totals(Instant::from_nanos(5)), (1, 1));
}

#[test]
fn a_window_covers_its_span_up_to_a_bucket() {
    let span = 10_000_000_000u128;
    let width = 1_000_000_000u128;
    let mut w = Window::new(Duration::from_secs(10));
    let mut history: Vec<(u128, bool)> = Vec::new();
    let mut rng = execution_policy::runtime::SplitMix64::new(7);
    let mut now = 20_000_000_000u128;
    for _ in 0..400 {
        now += (rng.next_u64() % 700_000_000) as u128;
        let failure = rng.next_u64() % 3 == 0;
        w.record(Instant::from_nanos(now), failure);
        history.push((now, failure));
        let since = |from: u128, only: bool| {
            history.iter().filter(|(t, f)| *t >= from && (!only || *f)).count() as u64
        };
        let (failures, total) = w.totals(Instant::from_nanos(now));
        assert!(since(now - span + width, false) <= total && total <= since(now - span, false));
        assert!(since(now - span + width, true) <= failures && failures <= since(now - span, true));
    }
}
