//! Lifecycle events and the hook that observes them.
//!
//! An event is built only where a hook is registered.

use std::sync::Arc;

use vstd::prelude::*;

use crate::error::BreakerState;
use crate::time::Duration;

verus! {

/// A lifecycle event of a call.
#[non_exhaustive]
#[derive(Debug, Clone, Copy, PartialEq, Eq)]
pub enum Event {
    /// An attempt's operation returned an error.
    AttemptFailed { attempt: u32 },
    /// An attempt exceeded its time.
    AttemptTimedOut { attempt: u32 },
    /// A retry was scheduled after `delay`.
    RetryScheduled { attempt: u32, delay: Duration },
    /// The operation eventually succeeded.
    Succeeded { attempts: u32 },
    /// No retry was left: the attempts were used up, or the time for them.
    GaveUp { attempts: u32 },
    /// The circuit breaker changed state, or let another probe through in state `to`.
    CircuitStateChanged { to: BreakerState },
    /// A call was rejected by the concurrency limit.
    ConcurrencyRejected,
    /// A retry was denied because the retry budget was exhausted.
    RetryBudgetExhausted { attempts: u32 },
    /// The fallback handler was invoked after a terminal failure.
    FallbackInvoked { attempts: u32 },
}

/// A callback that observes events. It is called synchronously.
pub trait Observer: Send + Sync {
    /// The callback was called on `event` and has returned.
    spec fn observed(&self, event: Event) -> bool;

    fn notify(&self, event: &Event)
        ensures
            self.observed(*event),
    ;
}

/// A closure as an observer.
pub struct Callback<F: Fn(&Event) + Send + Sync> {
    f: F,
}

impl<F: Fn(&Event) + Send + Sync> Callback<F> {
    #[verifier::type_invariant]
    spec fn total(self) -> bool {
        forall|event: Event| call_requires(self.f, (&event,))
    }

    pub closed spec fn closure(&self) -> F {
        self.f
    }

    pub fn new(f: F) -> (c: Self)
        requires
            forall|event: Event| call_requires(f, (&event,)),
        ensures
            c.closure() == f,
    {
        Callback { f }
    }
}

impl<F: Fn(&Event) + Send + Sync> Observer for Callback<F> {
    open spec fn observed(&self, event: Event) -> bool {
        call_ensures(self.closure(), (&event,), ())
    }

    fn notify(&self, event: &Event) {
        proof {
            use_type_invariant(self);
        }
        (self.f)(event)
    }
}

/// A kept observer.
pub struct Hook {
    kept: Box<dyn Observer>,
}

/// A registered event callback, shared by whoever emits events.
pub type EventHook = Arc<Hook>;

impl Hook {
    /// The callback was called on `event` and has returned.
    pub closed spec fn observed(&self, event: Event) -> bool {
        self.kept.observed(event)
    }

    pub fn notify(&self, event: &Event)
        ensures
            self.observed(*event),
    {
        self.kept.notify(event)
    }
}

/// The hook that calls `f` on each event.
pub fn hook<F: Fn(&Event) + Send + Sync + 'static>(f: F) -> (h: EventHook)
    requires
        forall|event: Event| call_requires(f, (&event,)),
    ensures
        forall|event: Event| #[trigger] h.observed(event) == call_ensures(f, (&event,), ()),
{
    let callback = Callback::new(f);
    assert(forall|event: Event| #[trigger]
        callback.observed(event) == call_ensures(f, (&event,), ()));
    let h = Hook { kept: Box::new(callback) };
    Arc::new(h)
}

/// Build `make()`'s event and hand it to `hook`, or build nothing where there is no hook.
/// Returns the event that was handed over.
pub fn emit<M: FnOnce() -> Event>(hook: &Option<EventHook>, make: M) -> (sent: Option<Event>)
    requires
        hook is Some ==> call_requires(make, ()),
    ensures
        sent is Some == hook is Some,
        sent matches Some(event) ==> call_ensures(make, (), event) && hook->0.observed(event),
{
    match hook {
        Some(h) => {
            let event = make();
            h.notify(&event);
            Some(event)
        },
        None => None,
    }
}

/// The events that an observer is told, where the call at hand gives rise to `events`.
pub open spec fn told(hook: Option<EventHook>, events: Seq<Event>) -> Seq<Event> {
    if hook is Some {
        events
    } else {
        Seq::empty()
    }
}

/// The observer, if there is one, was called on every event of `log`.
pub open spec fn delivered(hook: Option<EventHook>, log: Seq<Event>) -> bool {
    hook matches Some(h) ==> forall|i: int| 0 <= i < log.len() ==> h.observed(#[trigger] log[i])
}

} // verus!
