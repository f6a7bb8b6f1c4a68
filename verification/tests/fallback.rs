//! Ordered fallback.

use execution_policy::breaker::BreakerRuntime;
use execution_policy::fallback::{ChainStep, Served};
use execution_policy::health::Health;
use execution_policy::{
    BreakerState, CircuitBreaker, Duration, ErrorContext, ExecutionError, FallbackError, FallbackPolicy, Instant,
    Selection,
};

const HEALTHY: Health = Health { state: Some(BreakerState::Closed), cooling_until: None };

fn open(until: u128) -> Health {
    Health { state: Some(BreakerState::Open), cooling_until: Some(Instant::from_nanos(until)) }
}

fn context() -> Box<ErrorContext> {
    Box::new(ErrorContext {
        attempts: 1,
        elapsed: Duration::zero(),
        last_delay: None,
        breaker_state: BreakerState::Closed,
    })
}

fn operation(e: u16) -> ExecutionError<u16> {
    ExecutionError::Operation { source: e, context: context() }
}

fn run(
    policy: &FallbackPolicy<Health, u16>,
    mut op: impl FnMut(&str) -> Result<u32, ExecutionError<u16>>,
) -> Result<Served<u32>, FallbackError<u16>> {
    let mut chain = policy.begin();
    while chain.next < policy.targets().len() {
        let target = &policy.targets()[chain.next];
        let (attempt, visited) = policy.visit(chain, target.policy);
        chain = visited;
        if !attempt {
            continue;
        }
        let outcome = op(target.id.as_str());
        match policy.settle(chain, outcome) {
            ChainStep::Done(r) => return r,
            ChainStep::Next(next) => chain = next,
        }
    }
    Err(chain.finish())
}

fn policy(targets: &[(&str, Health)]) -> FallbackPolicy<Health, u16> {
    let mut b = FallbackPolicy::builder()
        .select(Selection::FirstHealthy)
        .advance_when(|e: &u16| *e == 429 || *e >= 500);
    for (id, health) in targets {
        b = b.target(id.to_string(), *health);
    }
    b.build()
}

#[test]
fn first_healthy_target_serves_and_records_provenance() {
    let p = policy(&[("deepseek", HEALTHY), ("glm", HEALTHY)]);
    let served = run(&p, |target| {
        assert_eq!(target, "deepseek"); // first healthy target
        Ok(7)
    })
    .expect("served");
    assert_eq!(served.value, 7);
    assert_eq!(served.target, "deepseek");
    assert_eq!(served.attempts, 1);
}

#[test]
fn permanent_error_does_not_advance_the_chain() {
    let p = policy(&[("a", HEALTHY), ("b", HEALTHY)]); // 400 is not transient
    let mut b_called = false;
    let out = run(&p, |target| {
        b_called = b_called || target == "b";
        Err(operation(400))
    });
    assert!(matches!(out, Err(FallbackError::Exhausted(400))));
    assert!(!b_called, "permanent error on 'a' must NOT advance to 'b'");
}

#[test]
fn all_targets_open_returns_park_hint() {
    let tripping = || {
        CircuitBreaker::<u16>::consecutive_failures(1)
            .open_for(Duration::from_secs(47))
            .compile()
            .0
    };
    let mut breakers = vec![tripping(), tripping()];
    let now = Instant::from_nanos(3);
    let health = |b: &BreakerRuntime| Health {
        state: Some(b.state_at(now)),
        cooling_until: b.cooling_until(now),
    };
    let p = policy(&[("a", health(&breakers[0])), ("b", health(&breakers[1]))]);
    // The first run trips both breakers.
    let out = run(&p, |t| {
        let b = &mut breakers[if t == "a" { 0 } else { 1 }];
        b.gate(now).expect("closed");
        b.record_failure(now);
        Err(operation(500))
    });
    assert!(matches!(out, Err(FallbackError::Exhausted(500))));
    let p = policy(&[("a", health(&breakers[0])), ("b", health(&breakers[1]))]);
    match run(&p, |_t| Ok(1)) {
        Err(FallbackError::AllUnavailable { next_available_at: Some(t) }) => {
            assert_eq!(t, now.saturating_add(Duration::from_secs(47)));
        }
        other => panic!("expected AllUnavailable with a hint, got {other:?}"),
    }
}

#[test]
fn the_soonest_recovery_is_told() {
    let p = policy(&[("a", open(50)), ("b", open(47))]);
    match run(&p, |_t| Ok(1)) {
        Err(FallbackError::AllUnavailable { next_available_at: Some(t) }) => {
            assert_eq!(t, Instant::from_nanos(47));
        }
        other => panic!("expected AllUnavailable with a hint, got {other:?}"),
    }
    // Once a target was attempted it is another matter.
    let p = policy(&[("a", open(50)), ("b", HEALTHY)]);
    match run(&p, |_t| Err(ExecutionError::AttemptTimeout { context: context() })) {
        Err(FallbackError::Unserved { attempts: 1, next_available_at: Some(t) }) => {
            assert_eq!(t, Instant::from_nanos(50));
        }
        other => panic!("expected Unserved with a hint, got {other:?}"),
    }
}

#[test]
fn transient_failures_lead_on_and_the_last_error_counts() {
    let p = policy(&[("a", HEALTHY), ("b", open(9)), ("c", HEALTHY), ("d", HEALTHY)]);
    let mut tried = Vec::new();
    let out = run(&p, |t| {
        tried.push(t.to_string());
        Err(match t {
            "a" => operation(500),
            "c" => operation(503),
            _ => ExecutionError::TotalTimeout { context: context() },
        })
    });
    assert_eq!(tried, vec!["a", "c", "d"]);
    assert!(matches!(out, Err(FallbackError::Exhausted(503))));
    let served = run(&p, |t| if t == "c" { Ok(3) } else { Err(operation(500)) }).unwrap();
    assert_eq!((served.target.as_str(), served.attempts), ("c", 2));
}

#[test]
fn without_a_classifier_every_error_is_transient() {
    let p: FallbackPolicy<Health, u16> =
        FallbackPolicy::builder()
            .target("a".to_string(), HEALTHY)
            .target("b".to_string(), HEALTHY)
            .build();
    let served = run(&p, |t| if t == "b" { Ok(1) } else { Err(operation(400)) }).unwrap();
    assert_eq!(served.target, "b");
    assert_eq!(p.selection(), Selection::FirstHealthy);
    assert_eq!(p.deadline(), Duration::from_secs(3600));
    let q: FallbackPolicy<Health, u16> =
        FallbackPolicy::builder().deadline(Duration::from_secs(1)).build();
    assert_eq!(q.deadline(), Duration::from_secs(1));
    assert!(matches!(
        run(&q, |_t| Ok(1)),
        Err(FallbackError::AllUnavailable { next_available_at: None })
    ));
}
