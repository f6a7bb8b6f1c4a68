//! The watchdog on silence.

use execution_policy::runtime::{ManualClock, TestCore};
use execution_policy::stall::Watchdog;
use execution_policy::{Core, Duration, Instant, Progress, StallError};

/// Watch an operation that is polled until it returns; between polls it may tick and let
/// time pass.
fn watch<T, E>(
    core: &mut TestCore<u32>,
    budget: Duration,
    mut op: impl FnMut(&mut TestCore<u32>, &mut Progress) -> Option<Result<T, E>>,
) -> Result<T, StallError<E>> {
    let mut progress = Progress::new();
    let mut dog = Watchdog::new(budget, progress.sample(), core.now());
    let mut timer = None;
    loop {
        let result = op(core, &mut progress);
        let mut elapsed = false;
        if result.is_none() {
            if dog.observe(progress.sample(), core.now()) {
                timer = None;
            }
            let sleep = *timer.get_or_insert_with(|| core.sleep(dog.remaining(core.now())));
            elapsed = sleep.poll(&mut core.clock, 0);
        }
        if let Some(r) = dog.settle(result, elapsed) {
            return r;
        }
    }
}

fn virtual_core() -> TestCore<u32> {
    TestCore::new(ManualClock::new())
}

#[test]
fn slow_but_ticking_op_is_not_killed() {
    let mut left = 5;
    let out: Result<u32, StallError<()>> =
        watch(&mut virtual_core(), Duration::from_millis(100), |core, p| {
            if left == 0 {
                return Some(Ok(7));
            }
            left -= 1;
            core.clock.advance(Duration::from_millis(40)); // < budget
            p.tick();
            None
        });
    assert_eq!(out, Ok(7));
}

#[test]
fn silent_op_is_killed() {
    let out: Result<u32, StallError<()>> =
        watch(&mut virtual_core(), Duration::from_millis(100), |core, _p| {
            core.clock.advance(Duration::from_millis(150)); // silence past budget
            None
        });
    assert_eq!(out, Err(StallError::Stalled { idle: Duration::from_millis(100) }));
}

#[test]
fn an_error_of_the_operation_is_its_own() {
    let out: Result<u32, StallError<&str>> =
        watch(&mut virtual_core(), Duration::from_millis(100), |_core, _p| Some(Err("broken")));
    assert_eq!(out, Err(StallError::Operation("broken")));
}

#[test]
fn a_result_counts_before_the_silence() {
    let dog = Watchdog::new(Duration::from_millis(1), 0, Instant::from_nanos(0));
    assert_eq!(dog.settle::<u32, ()>(Some(Ok(1)), true), Some(Ok(1)));
    assert_eq!(dog.settle::<u32, ()>(None, false), None);
}

#[test]
fn news_moves_the_deadline() {
    let mut dog = Watchdog::new(Duration::from_nanos(100), 0, Instant::from_nanos(0));
    assert_eq!(dog.remaining(Instant::from_nanos(60)), Duration::from_nanos(40));
    assert!(!dog.observe(0, Instant::from_nanos(60)));
    assert_eq!(dog.remaining(Instant::from_nanos(60)), Duration::from_nanos(40));
    assert!(dog.observe(1, Instant::from_nanos(60)));
    assert_eq!(dog.remaining(Instant::from_nanos(60)), Duration::from_nanos(100));
    assert_eq!(dog.remaining(Instant::from_nanos(170)), Duration::zero());
}

#[test]
fn ticks_are_counted_one_by_one() {
    let mut p = Progress::new();
    let other = Progress::new();
    for n in 1..=5 {
        p.tick();
        assert_eq!(p.sample(), n);
    }
    assert_eq!(other.sample(), 0);
}
