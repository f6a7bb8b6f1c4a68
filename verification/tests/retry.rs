//! Backoff, jitter, budget and the retry policy.

use execution_policy::classify::{Classifier, ErrorPredicate, OutcomeClassifier};
use execution_policy::retry::{Backoff, Jitter, Retry, RetryBudget};
use execution_policy::runtime::{ManualClock, TestCore};
use execution_policy::{Double, Duration, FailureClass, RetryDecision};

fn test_core() -> TestCore<u32> {
    TestCore::new(ManualClock::new())
}

fn double(v: f64) -> Double {
    Double::from_bits(v.to_bits())
}

#[test]
fn fixed_is_constant() {
    let b = Backoff::fixed(Duration::from_millis(50));
    assert_eq!(b.raw_delay(1), Duration::from_millis(50));
    assert_eq!(b.raw_delay(5), Duration::from_millis(50));
}

#[test]
fn exponential_doubles_then_clamps() {
    let b = Backoff::exponential(Duration::from_millis(50), Duration::from_millis(400));
    assert_eq!(b.raw_delay(1), Duration::from_millis(50));
    assert_eq!(b.raw_delay(2), Duration::from_millis(100));
    assert_eq!(b.raw_delay(3), Duration::from_millis(200));
    assert_eq!(b.raw_delay(4), Duration::from_millis(400));
    assert_eq!(b.raw_delay(5), Duration::from_millis(400));
    assert_eq!(b.raw_delay(40), Duration::from_millis(400));
}

#[test]
fn exponential_doubles_without_end_below_its_cap() {
    let b = Backoff::exponential(Duration::from_nanos(1), Duration::from_secs(10_000));
    assert_eq!(b.raw_delay(0), Duration::from_nanos(1));
    assert_eq!(b.raw_delay(33), Duration::from_nanos(1 << 32));
    assert_eq!(b.raw_delay(41), Duration::from_nanos(1 << 40));
    assert_eq!(b.raw_delay(64), Duration::from_secs(10_000));
    assert_eq!(b.raw_delay(u32::MAX), Duration::from_secs(10_000));
    let zero = Backoff::exponential(Duration::zero(), Duration::from_secs(1));
    assert_eq!(zero.raw_delay(u32::MAX), Duration::zero());
    let above = Backoff::exponential(Duration::from_secs(2), Duration::from_secs(1));
    assert_eq!(above.raw_delay(1), Duration::from_secs(1));
}

#[test]
fn none_is_identity() {
    let d = Duration::from_millis(100);
    assert_eq!(Jitter::Off.apply(d, u64::MAX), d);
}

#[test]
fn full_is_within_bounds() {
    let d = Duration::from_millis(100);
    for rng in [0u64, 1, 12345, u64::MAX / 2, u64::MAX] {
        let j = Jitter::Full.apply(d, rng);
        assert!(j <= d, "full jitter {j:?} exceeded base {d:?}");
    }
}

#[test]
fn equal_is_in_upper_half() {
    let d = Duration::from_millis(100);
    let half = Duration::from_millis(50);
    for rng in [0u64, 999, u64::MAX] {
        let j = Jitter::Equal.apply(d, rng);
        assert!(j >= half && j <= d, "equal jitter {j:?} out of [50ms,100ms]");
    }
}

#[test]
fn zero_base_stays_zero() {
    assert_eq!(Jitter::Full.apply(Duration::zero(), 42), Duration::zero());
    assert_eq!(Jitter::Equal.apply(Duration::zero(), 42), Duration::zero());
}

#[test]
fn jitter_takes_the_fraction_that_the_draw_stands_for() {
    let d = Duration::from_nanos(1000);
    assert_eq!(Jitter::Full.apply(d, 0), Duration::from_nanos(0));
    assert_eq!(Jitter::Full.apply(d, 1 << 63), Duration::from_nanos(500));
    assert_eq!(Jitter::Full.apply(d, u64::MAX), Duration::from_nanos(999));
    assert_eq!(Jitter::Equal.apply(d, 1 << 63), Duration::from_nanos(750));
    assert_eq!(Jitter::Equal.apply(d, 0), Duration::from_nanos(500));
}

#[test]
fn equal_jitter_keeps_half_of_the_longest_delays() {
    let d = Duration::from_secs(u64::MAX);
    let j = Jitter::Equal.apply(d, 1 << 63);
    assert!(j.nanos >= d.nanos / 2 && j.nanos <= d.nanos);
    assert_eq!(j.nanos, d.nanos / 2 + d.nanos / 4);
}

#[test]
fn fresh_budget_allows_burst_then_denies() {
    let mut b = RetryBudget::new(double(0.0), 3); // no replenishment, burst 3
    assert!(b.try_withdraw());
    assert!(b.try_withdraw());
    assert!(b.try_withdraw());
    assert!(!b.try_withdraw(), "burst exhausted with no deposits");
}

#[test]
fn deposits_replenish_at_ratio() {
    let mut b = RetryBudget::new(double(0.5), 1); // 50% ratio, small burst
    // Drain the burst.
    assert!(b.try_withdraw());
    assert!(!b.try_withdraw());
    // Two calls deposit 0.5 + 0.5 = 1.0 token: one more retry is allowed.
    b.deposit();
    b.deposit();
    assert!(b.try_withdraw());
    assert!(!b.try_withdraw());
}

#[test]
fn deposit_caps_at_max() {
    let mut b = RetryBudget::new(double(1.0), 2); // deposit 1 token per call, max 2
    for _ in 0..100 {
        b.deposit();
    }
    assert!(b.try_withdraw());
    assert!(b.try_withdraw());
    assert!(!b.try_withdraw(), "capped at burst max regardless of deposits");
}

/// How many deposits pay for one retry of an empty budget.
fn calls_per_retry(ratio: f64) -> Option<u32> {
    let mut b = RetryBudget::new(double(ratio), 1);
    assert!(b.try_withdraw());
    for calls in 1..=2000u32 {
        b.deposit();
        if b.try_withdraw() {
            return Some(calls);
        }
    }
    None
}

#[test]
fn budget_ratio_is_cut_off_to_thousandths() {
    assert_eq!(calls_per_retry(1.0), Some(1));
    assert_eq!(calls_per_retry(2.5), Some(1));
    assert_eq!(calls_per_retry(0.2), Some(5));
    assert_eq!(calls_per_retry(0.001), Some(1000));
    assert_eq!(calls_per_retry(0.0015), Some(1000));
    assert_eq!(calls_per_retry(0.0009), None);
    assert_eq!(calls_per_retry(-1.0), None);
    assert_eq!(calls_per_retry(f64::NAN), None);
    assert_eq!(calls_per_retry(f64::INFINITY), Some(1));
    for n in 1..=1000u32 {
        let ratio = f64::from(n) / 1000.0;
        let deposit = (ratio * 1000.0) as u32;
        assert_eq!(calls_per_retry(ratio), Some(1000u32.div_ceil(deposit)), "ratio {ratio}");
    }
}

#[test]
fn standard_budget_pays_one_retry_for_five_calls() {
    let mut b = RetryBudget::standard();
    for _ in 0..10 {
        assert!(b.try_withdraw());
    }
    assert!(!b.try_withdraw());
    for _ in 0..4 {
        b.deposit();
        assert!(!b.try_withdraw());
    }
    b.deposit();
    assert!(b.try_withdraw());
}

#[test]
fn a_burst_of_none_pays_for_nothing() {
    let mut b = RetryBudget::new(double(0.0), 0);
    assert!(!b.try_withdraw());
    let mut c = RetryBudget::new(double(1.0), 0);
    c.deposit();
    assert!(!c.try_withdraw());
}

#[test]
fn presets_have_expected_attempt_caps() {
    assert_eq!(Retry::<(), ()>::none().max_attempts_value(), 1);
    assert_eq!(Retry::<(), ()>::fixed(Duration::zero()).max_attempts_value(), 3);
    assert_eq!(Retry::<(), ()>::exponential().max_attempts_value(), 3);
    assert_eq!(Retry::<(), ()>::standard().max_attempts_value(), 4);
}

#[test]
fn builder_overrides_schedule() {
    let r = Retry::<u32, &str>::exponential()
        .max_attempts(5)
        .base_delay(Duration::from_millis(20))
        .max_delay(Duration::from_millis(80));
    assert_eq!(r.max_attempts_value(), 5);
    let mut core = test_core();
    assert_eq!(r.delay(1, &mut core, None), Duration::from_millis(20));
    assert_eq!(r.delay(3, &mut core, None), Duration::from_millis(80));
    assert_eq!(r.delay(9, &mut core, None), Duration::from_millis(80));
}

#[test]
fn a_fixed_schedule_has_a_base_and_no_cap() {
    let r = Retry::<u32, &str>::fixed(Duration::from_secs(1))
        .base_delay(Duration::from_secs(3))
        .max_delay(Duration::from_secs(2));
    assert_eq!(r.delay(1, &mut test_core(), None), Duration::from_secs(3));
}

#[test]
fn retry_after_floors_delay_across_seeds() {
    let r = Retry::<(), ()>::standard().retry_after(|_: &()| Some(Duration::from_secs(47)));
    let floor = Duration::from_secs(47);
    for seed in 0..2000u64 {
        let mut core = TestCore::<u32>::with_seed(ManualClock::new(), seed);
        for attempt in 1..=6 {
            let d = r.delay(attempt, &mut core, Some(&()));
            assert!(
                d >= floor,
                "seed {seed}, attempt {attempt}: delay {d:?} undercut Retry-After floor {floor:?}"
            );
        }
    }
}

#[test]
fn no_hint_leaves_full_jitter_untouched() {
    let r = Retry::<(), ()>::standard();
    let cap = Duration::from_secs(2); // standard() max backoff
    let mut saw_below_cap = false;
    for seed in 0..256u64 {
        let mut core = TestCore::<u32>::with_seed(ManualClock::new(), seed);
        let d = r.delay(6, &mut core, None); // attempt 6: backoff clamps to cap
        assert!(d <= cap, "seed {seed}: delay {d:?} exceeded backoff cap {cap:?}");
        if d < cap {
            saw_below_cap = true;
        }
    }
    assert!(saw_below_cap, "Full jitter never reduced the delay below the cap");
}

#[test]
fn when_predicate_controls_decision() {
    let r = Retry::<u32, i32>::exponential().when(|e: &i32| *e >= 500);
    assert_eq!(r.decide(&Err(503)), RetryDecision::Retry);
    assert_eq!(r.decide(&Err(404)), RetryDecision::Stop);
    assert_eq!(r.decide(&Ok(1)), RetryDecision::Stop);
}

#[derive(Debug, Clone)]
struct HintedError {
    hint: Option<Duration>,
}

#[test]
fn delay_method_floors_to_hint() {
    let mut core = test_core();
    let retry = Retry::<u32, HintedError>::fixed(Duration::from_millis(100))
        .max_attempts(3)
        .retry_after(|e: &HintedError| e.hint);

    let err = HintedError { hint: Some(Duration::from_secs(2)) };
    let d = retry.delay(1, &mut core, Some(&err));
    assert!(d >= Duration::from_secs(2), "delay {d:?} should be >= hint 2s");
}

#[test]
fn delay_method_keeps_backoff_when_larger_than_hint() {
    let mut core = test_core();
    let retry = Retry::<u32, HintedError>::fixed(Duration::from_secs(5))
        .max_attempts(3)
        .retry_after(|e: &HintedError| e.hint);

    let err = HintedError { hint: Some(Duration::from_millis(100)) }; // hint < backoff
    let d = retry.delay(1, &mut core, Some(&err));
    assert_eq!(d, Duration::from_secs(5));
}

#[test]
fn the_budget_travels_with_the_policy() {
    let r = Retry::<u32, i32>::exponential().budget(RetryBudget::standard());
    assert!(r.budget_ref().is_some());
    let (r, budget) = r.max_elapsed(Duration::from_secs(9)).take_budget();
    assert!(budget.is_some());
    assert!(r.budget_ref().is_none());
    assert_eq!(r.max_elapsed_value(), Some(Duration::from_secs(9)));
}

#[test]
fn retry_all_retries_errors_stops_on_ok() {
    let c: Classifier<u32, &str> = Classifier::RetryAll;
    assert_eq!(c.decide(&Ok(1)), RetryDecision::Stop);
    assert_eq!(c.decide(&Err("x")), RetryDecision::Retry);
}

#[test]
fn when_err_uses_predicate() {
    let c: Classifier<u32, i32> =
        Classifier::WhenErr(ErrorPredicate::new(|e: &i32| *e == 503));
    assert_eq!(c.decide(&Err(503)), RetryDecision::Retry);
    assert_eq!(c.decide(&Err(400)), RetryDecision::Stop);
}

#[test]
fn when_outcome_can_retry_on_ok() {
    let c: Classifier<u32, &str> =
        Classifier::WhenOutcome(OutcomeClassifier::new(|o: &Result<u32, &str>| match o {
            Ok(503) => RetryDecision::Retry,
            _ => RetryDecision::Stop,
        }));
    assert_eq!(c.decide(&Ok(503)), RetryDecision::Retry);
    assert_eq!(c.decide(&Ok(200)), RetryDecision::Stop);
}

#[test]
fn classify_permanent_error_does_not_advance() {
    let outcome: Result<u32, u16> = Err(400);
    let class = FailureClass::classify(
        &outcome,
        |e: &u16| (400..500).contains(e),
        |e: &u16| *e == 429 || *e >= 500,
    );
    assert_eq!(class, FailureClass::Permanent);
    assert!(!class.should_advance());
}

#[test]
fn classify_transient_error_advances() {
    let outcome: Result<u32, u16> = Err(429);
    let class = FailureClass::classify(
        &outcome,
        |e: &u16| (400..500).contains(e) && *e != 429,
        |e: &u16| *e == 429,
    );
    assert_eq!(class, FailureClass::Retryable);
    assert!(class.should_advance());
}

#[test]
fn classify_unknown_error_fails_fast() {
    let outcome: Result<u32, u16> = Err(418);
    let class = FailureClass::classify(&outcome, |_| false, |_| false);
    assert_eq!(class, FailureClass::Permanent);
    assert!(!class.should_advance());
}

#[test]
fn classify_permanent_wins_and_values_succeed() {
    let both: Result<u32, u16> = Err(1);
    assert_eq!(FailureClass::classify(&both, |_| true, |_| true), FailureClass::Permanent);
    let value: Result<u32, u16> = Ok(1);
    assert_eq!(FailureClass::classify(&value, |_| true, |_| true), FailureClass::Success);
    assert!(!FailureClass::Success.should_advance());
    assert!(!FailureClass::Ignored.should_advance());
}

#[test]
fn delays_never_shrink() {
    let b = Backoff::exponential(Duration::from_nanos(3), Duration::from_nanos(1000));
    for attempt in 0..40 {
        assert!(b.raw_delay(attempt) <= b.raw_delay(attempt + 1));
        assert!(b.raw_delay(attempt) <= Duration::from_nanos(1000));
    }
}

#[test]
fn retries_stay_within_what_calls_pay_for() {
    for ratio in [0.0, 0.1, 0.25, 0.333, 1.0] {
        let mut b = RetryBudget::new(double(ratio), 4);
        let mut granted = 0u64;
        for calls in 1..=500u64 {
            b.deposit();
            for _ in 0..3 {
                granted += u64::from(b.try_withdraw());
            }
            let deposit = (ratio * 1000.0) as u64;
            assert!(1000 * granted <= 4000 + deposit * calls);
        }
    }
}
