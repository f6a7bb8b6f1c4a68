//! Errors and events.

use std::sync::{Arc, Mutex};

use execution_policy::event::{emit, hook, EventHook};
use execution_policy::{BreakerState, Duration, ErrorContext, Event, ExecutionError};

fn ctx() -> Box<ErrorContext> {
    Box::new(ErrorContext {
        attempts: 3,
        elapsed: Duration::from_millis(120),
        last_delay: Some(Duration::from_millis(50)),
        breaker_state: BreakerState::Disabled,
    })
}

#[test]
fn predicates_and_context() {
    let e: ExecutionError<std::io::Error> = ExecutionError::TotalTimeout { context: ctx() };
    assert!(e.is_timeout());
    assert!(!e.is_circuit_open());
    assert_eq!(e.context().attempts, 3);
}

#[test]
fn into_inner_recovers_operation_error() {
    let src = std::io::Error::other("boom");
    let e = ExecutionError::Operation { source: src, context: ctx() };
    assert_eq!(e.into_inner().unwrap().to_string(), "boom");
}

#[test]
fn error_source_chains() {
    let src = std::io::Error::other("io fail");
    let e = ExecutionError::Operation { source: src, context: ctx() };
    assert!(e.source().is_some());
}

#[test]
fn every_variant_has_its_predicates() {
    let all: Vec<(ExecutionError<u8>, [bool; 4])> = vec![
        (ExecutionError::Operation { source: 1, context: ctx() }, [false, false, false, true]),
        (ExecutionError::AttemptTimeout { context: ctx() }, [true, false, false, false]),
        (ExecutionError::TotalTimeout { context: ctx() }, [true, false, false, false]),
        (ExecutionError::CircuitOpen { context: ctx() }, [false, true, false, false]),
        (ExecutionError::ConcurrencyRejected { context: ctx() }, [false, false, true, false]),
        (ExecutionError::RetryBudgetExhausted { context: ctx() }, [false, false, false, true]),
    ];
    for (i, (e, expected)) in all.into_iter().enumerate() {
        let got = [e.is_timeout(), e.is_circuit_open(), e.is_rejected(), e.is_exhausted()];
        assert_eq!(got, expected, "{e:?}");
        assert_eq!(*e.context(), *ctx());
        assert_eq!(e.source().is_some(), i == 0);
        if i % 2 == 0 {
            assert_eq!(e.into_inner(), if i == 0 { Some(1) } else { None });
        } else {
            assert_eq!(*e.into_context(), *ctx());
        }
    }
}

#[test]
fn emit_skips_when_no_hook() {
    let none: Option<EventHook> = None;
    // make() must not be called: use a side effect to prove it.
    let called = std::cell::Cell::new(false);
    emit(&none, || {
        called.set(true);
        Event::Succeeded { attempts: 1 }
    });
    assert!(!called.get(), "event must not be constructed without a hook");
}

#[test]
fn emit_invokes_hook() {
    let seen: Arc<Mutex<Vec<Event>>> = Arc::new(Mutex::new(Vec::new()));
    let sink = Arc::clone(&seen);
    let h: Option<EventHook> = Some(hook(move |e: &Event| sink.lock().unwrap().push(e.clone())));
    let sent = emit(&h, || Event::Succeeded { attempts: 3 });
    assert_eq!(seen.lock().unwrap().as_slice(), &[Event::Succeeded { attempts: 3 }]);
    assert_eq!(sent, Some(Event::Succeeded { attempts: 3 }));
}
