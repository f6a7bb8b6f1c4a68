//! Classification of outcomes, independent of the policies that act on it.

use vstd::prelude::*;

use crate::time::Duration;

verus! {

/// Coarse class of an outcome.
#[derive(Debug, Clone, Copy, PartialEq, Eq, Structural)]
pub enum FailureClass {
    Success,
    Retryable,
    Permanent,
    Ignored,
}

impl FailureClass {
    /// Map an outcome to its class. `is_permanent` is asked first, so it wins where
    /// both predicates would hold, and an error that neither knows is permanent: an
    /// unknown failure never burns a fallback chain.
    pub fn classify<T, E, P: Fn(&E) -> bool, Q: Fn(&E) -> bool>(
        outcome: &Result<T, E>,
        is_permanent: P,
        is_transient: Q,
    ) -> (class: FailureClass)
        requires
            outcome matches Err(e) ==> call_requires(is_permanent, (&e,)) && call_requires(
                is_transient,
                (&e,),
            ),
        ensures
            match outcome {
                Ok(_) => class == FailureClass::Success,
                Err(e) => {
                    ||| class == FailureClass::Permanent && call_ensures(is_permanent, (e,), true)
                    ||| class == FailureClass::Retryable && call_ensures(is_permanent, (e,), false)
                        && call_ensures(is_transient, (e,), true)
                    ||| class == FailureClass::Permanent && call_ensures(is_permanent, (e,), false)
                        && call_ensures(is_transient, (e,), false)
                },
            },
    {
        match outcome {
            Ok(_) => FailureClass::Success,
            Err(e) => if is_permanent(e) {
                FailureClass::Permanent
            } else if is_transient(e) {
                FailureClass::Retryable
            } else {
                FailureClass::Permanent
            },
        }
    }

    /// Whether a chain of targets goes on to its next target after this class.
    pub fn should_advance(self) -> (b: bool)
        ensures
            b == (self == FailureClass::Retryable),
    {
        matches!(self, FailureClass::Retryable)
    }
}

/// What to do after an outcome.
#[derive(Debug, Clone, Copy, PartialEq, Eq, Structural)]
pub enum RetryDecision {
    Retry,
    Stop,
}

/// What [`ErrorPredicate`] keeps of a closure: its precondition, the relation
/// between argument and answer, and the call.
pub trait TestError<E>: Send + Sync {
    spec fn accepts(&self, e: E) -> bool;

    spec fn answers(&self, e: E, b: bool) -> bool;

    fn test(&self, e: &E) -> (b: bool)
        requires
            self.accepts(*e),
        ensures
            self.answers(*e, b),
    ;
}

/// What [`OutcomeClassifier`] keeps of a closure.
pub trait DecideOutcome<T, E>: Send + Sync {
    spec fn accepts(&self, o: Result<T, E>) -> bool;

    spec fn answers(&self, o: Result<T, E>, d: RetryDecision) -> bool;

    fn decide(&self, o: &Result<T, E>) -> (d: RetryDecision)
        requires
            self.accepts(*o),
        ensures
            self.answers(*o, d),
    ;
}

/// What [`RetryAfterExtractor`] keeps of a closure.
pub trait ExtractHint<E>: Send + Sync {
    spec fn accepts(&self, e: E) -> bool;

    spec fn answers(&self, e: E, hint: Option<Duration>) -> bool;

    fn extract(&self, e: &E) -> (hint: Option<Duration>)
        requires
            self.accepts(*e),
        ensures
            self.answers(*e, hint),
    ;
}

/// A closure in the role of one of the traits above.
pub struct Closure<F> {
    pub f: F,
}

impl<E, F: Fn(&E) -> bool + Send + Sync> TestError<E> for Closure<F> {
    open spec fn accepts(&self, e: E) -> bool {
        call_requires(self.f, (&e,))
    }

    open spec fn answers(&self, e: E, b: bool) -> bool {
        call_ensures(self.f, (&e,), b)
    }

    fn test(&self, e: &E) -> (b: bool) {
        (self.f)(e)
    }
}

impl<T, E, F: Fn(&Result<T, E>) -> RetryDecision + Send + Sync> DecideOutcome<T, E> for Closure<F> {
    open spec fn accepts(&self, o: Result<T, E>) -> bool {
        call_requires(self.f, (&o,))
    }

    open spec fn answers(&self, o: Result<T, E>, d: RetryDecision) -> bool {
        call_ensures(self.f, (&o,), d)
    }

    fn decide(&self, o: &Result<T, E>) -> (d: RetryDecision) {
        (self.f)(o)
    }
}

impl<E, F: Fn(&E) -> Option<Duration> + Send + Sync> ExtractHint<E> for Closure<F> {
    open spec fn accepts(&self, e: E) -> bool {
        call_requires(self.f, (&e,))
    }

    open spec fn answers(&self, e: E, hint: Option<Duration>) -> bool {
        call_ensures(self.f, (&e,), hint)
    }

    fn extract(&self, e: &E) -> (hint: Option<Duration>) {
        (self.f)(e)
    }
}

/// A predicate on errors that a policy keeps. It can be asked about every error.
#[verifier::reject_recursive_types(E)]
pub struct ErrorPredicate<E> {
    kept: Box<dyn TestError<E>>,
}

impl<E> ErrorPredicate<E> {
    #[verifier::type_invariant]
    spec fn total(self) -> bool {
        forall|e: E| self.kept.accepts(e)
    }

    /// `b` is an answer that the predicate may give on error `e`.
    pub closed spec fn answers(&self, e: E, b: bool) -> bool {
        self.kept.answers(e, b)
    }

    pub fn new<F: Fn(&E) -> bool + Send + Sync + 'static>(f: F) -> (p: Self)
        requires
            forall|e: E| call_requires(f, (&e,)),
        ensures
            forall|e: E, b: bool| #[trigger] p.answers(e, b) == call_ensures(f, (&e,), b),
    {
        let closure = Closure { f };
        assert(forall|e: E| #[trigger] TestError::accepts(&closure, e));
        assert(forall|e: E, b: bool| #[trigger]
            TestError::answers(&closure, e, b) == call_ensures(f, (&e,), b));
        ErrorPredicate { kept: Box::new(closure) }
    }

    pub fn test(&self, e: &E) -> (b: bool)
        ensures
            self.answers(*e, b),
    {
        proof {
            use_type_invariant(self);
        }
        self.kept.test(e)
    }
}

/// A decision on whole outcomes that a policy keeps.
#[verifier::reject_recursive_types(T)]
#[verifier::reject_recursive_types(E)]
pub struct OutcomeClassifier<T, E> {
    kept: Box<dyn DecideOutcome<T, E>>,
}

impl<T, E> OutcomeClassifier<T, E> {
    #[verifier::type_invariant]
    spec fn total(self) -> bool {
        forall|o: Result<T, E>| self.kept.accepts(o)
    }

    /// `d` is a decision that the classifier may take on outcome `o`.
    pub closed spec fn answers(&self, o: Result<T, E>, d: RetryDecision) -> bool {
        self.kept.answers(o, d)
    }

    pub fn new<F: Fn(&Result<T, E>) -> RetryDecision + Send + Sync + 'static>(f: F) -> (p: Self)
        requires
            forall|o: Result<T, E>| call_requires(f, (&o,)),
        ensures
            forall|o: Result<T, E>, d: RetryDecision| #[trigger]
                p.answers(o, d) == call_ensures(f, (&o,), d),
    {
        let closure = Closure { f };
        assert(forall|o: Result<T, E>| #[trigger] DecideOutcome::accepts(&closure, o));
        assert(forall|o: Result<T, E>, d: RetryDecision| #[trigger]
            DecideOutcome::answers(&closure, o, d) == call_ensures(f, (&o,), d));
        OutcomeClassifier { kept: Box::new(closure) }
    }

    pub fn decide(&self, o: &Result<T, E>) -> (d: RetryDecision)
        ensures
            self.answers(*o, d),
    {
        proof {
            use_type_invariant(self);
        }
        self.kept.decide(o)
    }
}

/// A kept closure that takes an optional delay hint out of an error, such as a
/// server's `Retry-After`.
#[verifier::reject_recursive_types(E)]
pub struct RetryAfterExtractor<E> {
    kept: Box<dyn ExtractHint<E>>,
}

impl<E> RetryAfterExtractor<E> {
    #[verifier::type_invariant]
    spec fn total(self) -> bool {
        forall|e: E| self.kept.accepts(e)
    }

    /// `hint` is what the extractor may find in error `e`.
    pub closed spec fn answers(&self, e: E, hint: Option<Duration>) -> bool {
        self.kept.answers(e, hint)
    }

    pub fn new<F: Fn(&E) -> Option<Duration> + Send + Sync + 'static>(f: F) -> (p: Self)
        requires
            forall|e: E| call_requires(f, (&e,)),
        ensures
            forall|e: E, hint: Option<Duration>| #[trigger]
                p.answers(e, hint) == call_ensures(f, (&e,), hint),
    {
        let closure = Closure { f };
        assert(forall|e: E| #[trigger] ExtractHint::accepts(&closure, e));
        assert(forall|e: E, hint: Option<Duration>| #[trigger]
            ExtractHint::answers(&closure, e, hint) == call_ensures(f, (&e,), hint));
        RetryAfterExtractor { kept: Box::new(closure) }
    }

    pub fn extract(&self, e: &E) -> (hint: Option<Duration>)
        ensures
            self.answers(*e, hint),
    {
        proof {
            use_type_invariant(self);
        }
        self.kept.extract(e)
    }
}

/// How an outcome maps to a decision.
#[verifier::reject_recursive_types(T)]
#[verifier::reject_recursive_types(E)]
pub enum Classifier<T, E> {
    /// Retry any `Err`, stop on any `Ok`.
    RetryAll,
    /// Retry when the predicate holds of the error.
    WhenErr(ErrorPredicate<E>),
    /// Full control, `Ok` values included.
    WhenOutcome(OutcomeClassifier<T, E>),
}

impl<T, E> Classifier<T, E> {
    /// `d` is a decision that the classifier may take on outcome `o`.
    pub open spec fn decides(&self, o: Result<T, E>, d: RetryDecision) -> bool {
        match self {
            Classifier::RetryAll => d == (if o is Ok {
                RetryDecision::Stop
            } else {
                RetryDecision::Retry
            }),
            Classifier::WhenErr(p) => match o {
                Ok(_) => d == RetryDecision::Stop,
                Err(e) => p.answers(e, d == RetryDecision::Retry),
            },
            Classifier::WhenOutcome(f) => f.answers(o, d),
        }
    }

    pub fn decide(&self, outcome: &Result<T, E>) -> (d: RetryDecision)
        ensures
            self.decides(*outcome, d),
    {
        match self {
            Classifier::RetryAll => match outcome {
                Ok(_) => RetryDecision::Stop,
                Err(_) => RetryDecision::Retry,
            },
            Classifier::WhenErr(p) => match outcome {
                Ok(_) => RetryDecision::Stop,
                Err(e) => if p.test(e) {
                    RetryDecision::Retry
                } else {
                    RetryDecision::Stop
                },
            },
            Classifier::WhenOutcome(f) => f.decide(outcome),
        }
    }
}

/// A classifier retries errors and lets values be, unless it is asked about whole outcomes:
/// then it does as the answer says.
pub proof fn law_classifiers_decide<T, E>(
    c: Classifier<T, E>,
    outcome: Result<T, E>,
    d: RetryDecision,
)
    requires
        c.decides(outcome, d),
    ensures
        c is RetryAll ==> (d == RetryDecision::Retry <==> outcome is Err),
        c matches Classifier::WhenErr(p) ==> {
            &&& outcome is Ok ==> d == RetryDecision::Stop
            &&& outcome matches Err(e) ==> {
                ||| d == RetryDecision::Retry && p.answers(e, true)
                ||| d == RetryDecision::Stop && p.answers(e, false)
            }
        },
        c matches Classifier::WhenOutcome(f) ==> f.answers(outcome, d),
{
}

/// An error is transient only if it is known to be and not known to be permanent, and only a
/// transient one leads a chain of targets on.
pub proof fn law_unknown_errors_are_permanent<T, E, P: Fn(&E) -> bool, Q: Fn(&E) -> bool>(
    outcome: &Result<T, E>,
    is_permanent: P,
    is_transient: Q,
    class: FailureClass,
    advances: bool,
)
    requires
        call_ensures(
            FailureClass::classify::<T, E, P, Q>,
            (outcome, is_permanent, is_transient),
            class,
        ),
        call_ensures(FailureClass::should_advance, (class,), advances),
    ensures
        *outcome is Ok ==> class == FailureClass::Success && !advances,
        *outcome matches Err(e) ==> {
            &&& advances ==> call_ensures(is_transient, (&e,), true) && call_ensures(
                is_permanent,
                (&e,),
                false,
            )
            &&& !advances ==> class == FailureClass::Permanent && (call_ensures(
                is_permanent,
                (&e,),
                true,
            ) || call_ensures(is_transient, (&e,), false))
        },
{
}

} // verus!
