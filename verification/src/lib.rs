//! Reliability policies for operations that can fail: retry with backoff, jitter and a
//! budget, timeouts, circuit breaking, bounded concurrency, and routing over several
//! targets.
//!
//! The library holds the decisions and no I/O. A call is a machine of stages (see
//! [`engine`]), a breaker, a semaphore, a retry budget and a clock are plain states, and
//! whatever the outside world contributes (results of the operation, readings of the
//! clock, random numbers) comes in as an argument. The contracts say exactly what comes
//! out; the `law_` functions say what holds over several calls.

pub mod attempt;
pub mod breaker;
pub mod builder;
pub mod classify;
pub mod concurrency;
pub mod double;
pub mod engine;
pub mod error;
pub mod event;
pub mod fallback;
pub mod health;
pub mod member;
pub mod meter;
pub mod pick;
pub mod plan;
pub mod policy;
pub mod retry;
pub mod router;
pub mod runtime;
pub mod stall;
pub mod time;

pub use crate::attempt::Attempt;
pub use crate::breaker::CircuitBreaker;
pub use crate::builder::{BuildError, ExecutionPolicyBuilder};
pub use crate::classify::{FailureClass, RetryDecision};
pub use crate::concurrency::{ConcurrencyLimit, SaturationPolicy};
pub use crate::double::Double;
pub use crate::error::{BreakerState, ErrorContext, ExecutionError};
pub use crate::event::Event;
pub use crate::fallback::{FallbackError, FallbackPolicy, FallbackPolicyBuilder, Selection};
pub use crate::member::{Member, MemberState, WeightError};
pub use crate::meter::{Meter, PeakEwmaState, Sample};
pub use crate::pick::{Candidate, Pick};
pub use crate::policy::ExecutionPolicy;
pub use crate::retry::{Backoff, Jitter, Retry, RetryBudget};
pub use crate::router::{RouterError, RouterPolicy, RouterPolicyBuilder, Served};
pub use crate::runtime::Core;
pub use crate::stall::{Progress, StallError};
pub use crate::time::{Duration, Instant};
