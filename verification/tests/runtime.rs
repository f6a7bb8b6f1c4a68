//! Clocks and random numbers.

use execution_policy::runtime::{ManualClock, ManualSleep, SplitMix64, TestCore, TokioCore};
use execution_policy::{Attempt, Core, Duration, Instant};

#[test]
fn number_is_one_based() {
    let t = Instant::from_nanos(7);
    let a = Attempt::new(1, t, t);
    assert_eq!(a.number(), 1);
}

#[test]
fn elapsed_reflects_clock() {
    let start = Instant::from_nanos(7);
    let now = start.saturating_add(Duration::from_millis(250));
    let a = Attempt::new(2, start, now);
    assert_eq!(a.elapsed(), Duration::from_millis(250));
}

#[test]
fn now_advances_only_on_advance() {
    let mut core: TestCore<u32> = TestCore::new(ManualClock::new());
    let t0 = core.now();
    assert_eq!(core.now(), t0);
    core.clock.advance(Duration::from_secs(5));
    assert_eq!(core.now().duration_since(t0), Duration::from_secs(5));
}

#[test]
fn sleep_resolves_when_clock_crosses_deadline() {
    let mut core: TestCore<&str> = TestCore::new(ManualClock::new());
    let sleep: ManualSleep = core.sleep(Duration::from_secs(10));
    assert!(!sleep.poll(&mut core.clock, "waiter"));
    assert_eq!(core.clock.advance(Duration::from_secs(9)), Vec::<&str>::new());
    assert!(!sleep.poll(&mut core.clock, "again"));
    assert_eq!(core.clock.advance(Duration::from_secs(1)), vec!["waiter", "again"]);
    assert!(sleep.poll(&mut core.clock, "done"));
    assert_eq!(core.clock.advance(Duration::from_secs(100)), Vec::<&str>::new());
}

#[test]
fn advancing_wakes_those_whose_time_has_come_in_order() {
    let mut clock: ManualClock<u32> = ManualClock::starting_at(Instant::from_nanos(100));
    clock.register(Duration::from_nanos(30), 1);
    clock.register(Duration::from_nanos(10), 2);
    clock.register(Duration::from_nanos(20), 3);
    clock.register(Duration::from_nanos(10), 4);
    assert_eq!(clock.advance(Duration::from_nanos(15)), vec![2, 4]);
    assert_eq!(clock.now(), Instant::from_nanos(115));
    assert_eq!(clock.offset(), Duration::from_nanos(15));
    assert_eq!(clock.advance(Duration::from_nanos(15)), vec![1, 3]);
}

#[test]
fn two_advances_do_what_one_of_their_sum_does() {
    let clock = || {
        let mut c: ManualClock<u32> = ManualClock::new();
        for (i, d) in [30u64, 10, 20, 45].into_iter().enumerate() {
            c.register(Duration::from_nanos(d.into()), i as u32);
        }
        c
    };
    let mut twice = clock();
    let mut woken = twice.advance(Duration::from_nanos(15));
    woken.extend(twice.advance(Duration::from_nanos(20)));
    let mut once = clock();
    let mut all = once.advance(Duration::from_nanos(35));
    assert_eq!(twice.now(), once.now());
    woken.sort();
    all.sort();
    assert_eq!(woken, all);
    assert_eq!(twice.advance(Duration::from_nanos(10)), once.advance(Duration::from_nanos(10)));
}

#[test]
fn deterministic_for_same_seed() {
    let mut a = SplitMix64::new(42);
    let mut b = SplitMix64::new(42);
    for _ in 0..8 {
        assert_eq!(a.next_u64(), b.next_u64());
    }
}

#[test]
fn differs_across_seeds_and_advances() {
    let mut a = SplitMix64::new(1);
    let mut b = SplitMix64::new(2);
    assert_ne!(a.next_u64(), b.next_u64());
    let first = SplitMix64::new(1).next_u64();
    let mut c = SplitMix64::new(1);
    let _ = c.next_u64();
    assert_ne!(first, c.next_u64());
}

#[test]
fn the_generator_gives_the_published_numbers() {
    let mut r = SplitMix64::new(1_234_567);
    assert_eq!(r.next_u64(), 6_457_827_717_110_365_317);
    assert_eq!(r.next_u64(), 3_203_168_211_198_807_973);
    assert_eq!(r.next_u64(), 9_817_491_932_198_370_423);
}

#[test]
fn the_test_core_draws_from_its_seed() {
    let mut core: TestCore<u32> = TestCore::new(ManualClock::new());
    let mut rng = SplitMix64::new(0xDEAD_BEEF);
    for _ in 0..4 {
        assert_eq!(core.next_u64(), rng.next_u64());
    }
}

#[test]
fn the_production_generator_is_seeded_and_never_stuck() {
    let mut c = TokioCore::new(123);
    let mut rng = SplitMix64::new(123 ^ 0x2545_F491_4F6C_DD1D);
    for _ in 0..4 {
        assert_eq!(c.next_u64(), rng.next_u64());
    }
    assert_eq!(TokioCore::new(0x2545_F491_4F6C_DD1D).rng_state, 1);
}

#[test]
fn spans_and_instants() {
    let a = Instant::from_nanos(10);
    let b = Instant::from_nanos(25);
    assert_eq!(b.duration_since(a), Duration::from_nanos(15));
    assert_eq!(a.duration_since(b), Duration::zero());
    assert_eq!(b.checked_sub(Duration::from_nanos(25)), Some(Instant::from_nanos(0)));
    assert_eq!(b.checked_sub(Duration::from_nanos(26)), None);
    let last = Instant::from_nanos(u128::MAX);
    assert_eq!(last.saturating_add(Duration::from_nanos(1)), last);
    assert_eq!(Duration::from_secs(2).min(Duration::from_millis(1500)), Duration::from_millis(1500));
    assert_eq!(Duration::from_millis(1).min(Duration::from_millis(2)), Duration::from_millis(1));
    assert!(Duration::zero().is_zero() && !Duration::from_nanos(1).is_zero());
}
