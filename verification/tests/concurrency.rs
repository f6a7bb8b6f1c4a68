//! Bounded concurrency.

use execution_policy::concurrency::{
    settle_wait, Admission, CompiledConcurrency, ConcurrencyLimit, SaturationPolicy, Scope,
    Semaphore, Waiting,
};
use execution_policy::Duration;

fn semaphore(n: usize) -> Semaphore<&'static str> {
    ConcurrencyLimit::operations(n).build()
}

#[test]
fn queued_counts_waiters() {
    let mut sem = semaphore(1);
    let _p = sem.try_acquire().unwrap();
    assert_eq!(sem.queued(), 0);
}

#[test]
fn saturation_builders() {
    let c: CompiledConcurrency<u32> = ConcurrencyLimit::attempts(8)
        .max_queued(4)
        .queue_timeout(Duration::from_millis(10))
        .compile();
    assert_eq!(c.scope, Scope::Attempts);
    match c.saturation {
        SaturationPolicy::Wait { max_queued, queue_timeout } => {
            assert_eq!(max_queued, 4);
            assert_eq!(queue_timeout, Some(Duration::from_millis(10)));
        }
        _ => panic!("expected Wait"),
    }
    let r: CompiledConcurrency<u32> = ConcurrencyLimit::operations(2).reject().compile();
    assert_eq!(r.saturation, SaturationPolicy::Reject);
}

#[test]
fn rejection_is_not_undone_by_queue_settings() {
    let r: CompiledConcurrency<u32> = ConcurrencyLimit::operations(2)
        .reject()
        .max_queued(4)
        .queue_timeout(Duration::from_millis(10))
        .compile();
    assert_eq!(r.saturation, SaturationPolicy::Reject);
    assert_eq!(r.scope, Scope::Operations);
}

#[test]
fn numbers_stand_for_limits_on_operations() {
    let a: CompiledConcurrency<u32> = ConcurrencyLimit::from(3usize).compile();
    assert_eq!((a.sem.capacity(), a.scope), (3, Scope::Operations));
    let b: CompiledConcurrency<u32> = ConcurrencyLimit::from(0u32).compile();
    assert_eq!((b.sem.capacity(), b.scope), (1, Scope::Operations));
    assert_eq!(
        b.saturation,
        SaturationPolicy::Wait { max_queued: usize::MAX, queue_timeout: None }
    );
}

#[test]
fn permit_release_lets_next_in() {
    let mut sem = semaphore(1);
    let p1 = sem.try_acquire().expect("first permit");
    assert!(sem.try_acquire().is_none(), "saturated");

    let waiter = sem.acquire();
    assert!(sem.poll(&waiter, "w1").is_none());
    assert_eq!(sem.queued(), 1);

    assert_eq!(sem.release(p1), Some("w1"));
    assert_eq!(sem.queued(), 0);
    let _p2 = sem.poll(&waiter, "w1").expect("the permit that was given back");
    assert!(sem.try_acquire().is_none());
}

#[test]
fn callers_are_woken_in_the_order_they_came() {
    let mut sem = semaphore(2);
    let a = sem.try_acquire().unwrap();
    let b = sem.try_acquire().unwrap();
    let first = sem.acquire();
    let second = sem.acquire();
    assert!(sem.poll(&first, "first").is_none());
    assert!(sem.poll(&second, "second").is_none());
    // A caller that is polled again keeps its place, with what wakes it now.
    assert!(sem.poll(&first, "first again").is_none());
    assert_eq!(sem.queued(), 2);
    assert_eq!(sem.release(a), Some("first again"));
    assert_eq!(sem.release(b), Some("second"));
    assert_eq!((sem.free(), sem.capacity()), (2, 2));
}

#[test]
fn callers_that_leave_do_not_swallow_a_permit() {
    let mut sem = semaphore(1);
    let p = sem.try_acquire().unwrap();
    let first = sem.acquire();
    let second = sem.acquire();
    assert!(sem.poll(&first, "first").is_none());
    assert!(sem.poll(&second, "second").is_none());
    // The first caller is woken but leaves before it takes the permit.
    assert_eq!(sem.release(p), Some("first"));
    assert_eq!(sem.abandon(first), Some("second"));
    let p = sem.poll(&second, "second").unwrap();
    // One that leaves the queue wakes nobody.
    let third = sem.acquire();
    assert!(sem.poll(&third, "third").is_none());
    assert_eq!(sem.abandon(third), None);
    assert_eq!(sem.queued(), 0);
    assert_eq!(sem.release(p), None);
}

#[test]
fn a_caller_that_takes_a_permit_leaves_the_queue() {
    let mut sem = semaphore(1);
    let p = sem.try_acquire().unwrap();
    let waiter = sem.acquire();
    assert!(sem.poll(&waiter, "w").is_none());
    let other = sem.acquire();
    assert!(sem.poll(&other, "o").is_none());
    assert_eq!(sem.release(p), Some("w"));
    // The second caller is polled first and takes the permit.
    let _p = sem.poll(&other, "o").unwrap();
    assert_eq!(sem.queued(), 0);
    assert!(sem.poll(&waiter, "w").is_none());
    assert_eq!(sem.queued(), 1);
}

#[test]
fn requests_follow_the_saturation_policy() {
    let mut reject: CompiledConcurrency<u32> = ConcurrencyLimit::operations(1).reject().compile();
    assert!(matches!(reject.request(), Admission::Granted(_)));
    assert!(matches!(reject.request(), Admission::Rejected));

    let mut wait: CompiledConcurrency<u32> = ConcurrencyLimit::operations(1)
        .max_queued(1)
        .queue_timeout(Duration::from_secs(3))
        .compile();
    assert!(matches!(wait.request(), Admission::Granted(_)));
    match wait.request() {
        Admission::Queue { timeout } => assert_eq!(timeout, Some(Duration::from_secs(3))),
        other => panic!("expected to queue, got {other:?}"),
    }
    let t = wait.sem.acquire();
    assert!(wait.sem.poll(&t, 1).is_none());
    assert!(matches!(wait.request(), Admission::Rejected), "the queue is full");
}

#[test]
fn a_permit_counts_before_the_time() {
    let mut sem: Semaphore<u32> = ConcurrencyLimit::operations(1).build();
    let p = sem.try_acquire();
    assert!(matches!(settle_wait(p, true, true), Waiting::Granted(_)));
    assert!(matches!(settle_wait(None, true, false), Waiting::Rejected));
    assert!(matches!(settle_wait(None, false, true), Waiting::Rejected));
    assert!(matches!(settle_wait(None, false, false), Waiting::Pending));
    assert!(sem.tickets_left() == u64::MAX);
}
