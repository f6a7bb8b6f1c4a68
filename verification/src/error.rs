//! How an execution can fail, with the context of the failure.

use vstd::prelude::*;

use crate::time::Duration;

verus! {

/// State of a circuit breaker.
#[derive(Debug, Clone, Copy, PartialEq, Eq, Structural)]
pub enum BreakerState {
    /// No breaker is configured.
    Disabled,
    Closed,
    Open,
    HalfOpen,
}

/// Diagnostic context of every [`ExecutionError`].
#[derive(Debug, Clone, Copy, PartialEq, Eq)]
pub struct ErrorContext {
    /// How many attempts were made.
    pub attempts: u32,
    /// The time since the call arrived.
    pub elapsed: Duration,
    /// The delay that was last due.
    pub last_delay: Option<Duration>,
    /// The state of the breaker at the failure.
    pub breaker_state: BreakerState,
}

/// Why an execution failed. The context is boxed to keep the `Result` small.
#[non_exhaustive]
#[derive(Debug)]
pub enum ExecutionError<E> {
    /// The operation failed, and its error was final.
    Operation { source: E, context: Box<ErrorContext> },
    /// The last attempt ran out of its own time; or it returned a value that was to be
    /// retried, too late for another attempt, and no attempt before had returned an error.
    AttemptTimeout { context: Box<ErrorContext> },
    /// The call as a whole ran out of time.
    TotalTimeout { context: Box<ErrorContext> },
    /// The circuit breaker turned the call away.
    CircuitOpen { context: Box<ErrorContext> },
    /// The concurrency limit turned the call away.
    ConcurrencyRejected { context: Box<ErrorContext> },
    /// A retry was due, and the retry budget had none left.
    RetryBudgetExhausted { context: Box<ErrorContext> },
}

impl<E> ExecutionError<E> {
    pub open spec fn spec_context(&self) -> ErrorContext {
        match self {
            ExecutionError::Operation { source: _, context } => **context,
            ExecutionError::AttemptTimeout { context } => **context,
            ExecutionError::TotalTimeout { context } => **context,
            ExecutionError::CircuitOpen { context } => **context,
            ExecutionError::ConcurrencyRejected { context } => **context,
            ExecutionError::RetryBudgetExhausted { context } => **context,
        }
    }

    pub open spec fn spec_source(&self) -> Option<E> {
        match self {
            ExecutionError::Operation { source, context: _ } => Some(*source),
            _ => None,
        }
    }

    /// Attempts, elapsed time, last delay and breaker state at the failure.
    pub fn context(&self) -> (c: &ErrorContext)
        ensures
            *c == self.spec_context(),
    {
        match self {
            ExecutionError::Operation { source: _, context } => context,
            ExecutionError::AttemptTimeout { context } => context,
            ExecutionError::TotalTimeout { context } => context,
            ExecutionError::CircuitOpen { context } => context,
            ExecutionError::ConcurrencyRejected { context } => context,
            ExecutionError::RetryBudgetExhausted { context } => context,
        }
    }

    /// The operation's own error, if there is one.
    pub fn into_inner(self) -> (e: Option<E>)
        ensures
            e == self.spec_source(),
    {
        match self {
            ExecutionError::Operation { source, context: _ } => Some(source),
            _ => None,
        }
    }

    /// The context alone.
    pub fn into_context(self) -> (c: Box<ErrorContext>)
        ensures
            *c == self.spec_context(),
    {
        match self {
            ExecutionError::Operation { source: _, context } => context,
            ExecutionError::AttemptTimeout { context } => context,
            ExecutionError::TotalTimeout { context } => context,
            ExecutionError::CircuitOpen { context } => context,
            ExecutionError::ConcurrencyRejected { context } => context,
            ExecutionError::RetryBudgetExhausted { context } => context,
        }
    }

    /// The operation's own error, by reference, if there is one.
    pub fn source(&self) -> (e: Option<&E>)
        ensures
            e is Some == self.spec_source() is Some,
            e matches Some(r) ==> self.spec_source() == Some(*r),
    {
        match self {
            ExecutionError::Operation { source, context: _ } => Some(source),
            _ => None,
        }
    }

    pub fn is_timeout(&self) -> (b: bool)
        ensures
            b == (self is AttemptTimeout || self is TotalTimeout),
    {
        matches!(self, ExecutionError::AttemptTimeout { .. } | ExecutionError::TotalTimeout { .. })
    }

    pub fn is_circuit_open(&self) -> (b: bool)
        ensures
            b == (self is CircuitOpen),
    {
        matches!(self, ExecutionError::CircuitOpen { .. })
    }

    pub fn is_rejected(&self) -> (b: bool)
        ensures
            b == (self is ConcurrencyRejected),
    {
        matches!(self, ExecutionError::ConcurrencyRejected { .. })
    }

    pub fn is_exhausted(&self) -> (b: bool)
        ensures
            b == (self is Operation || self is RetryBudgetExhausted),
    {
        matches!(
            self,
            ExecutionError::Operation { .. } | ExecutionError::RetryBudgetExhausted { .. }
        )
    }
}

} // verus!
