//! Health of a target, as a router reads it.

use vstd::prelude::*;

use crate::error::BreakerState;
use crate::time::Instant;

verus! {

/// What a target reports of its breaker.
#[derive(Debug, Clone, Copy)]
pub struct Health {
    /// The state of the breaker, or nothing where the target has none.
    pub state: Option<BreakerState>,
    /// When its cooldown ends, while it lasts.
    pub cooling_until: Option<Instant>,
}

impl Health {
    /// The breaker turns calls away.
    pub open spec fn open(self) -> bool {
        self.state == Some(BreakerState::Open)
    }

    pub fn is_open(&self) -> (b: bool)
        ensures
            b == self.open(),
    {
        matches!(self.state, Some(BreakerState::Open))
    }
}

/// The sooner of two instants, as far as they are known.
pub open spec fn spec_sooner(a: Option<Instant>, b: Option<Instant>) -> Option<Instant> {
    match (a, b) {
        (Some(x), Some(y)) => if y.nanos < x.nanos {
            Some(y)
        } else {
            Some(x)
        },
        (Some(x), None) => Some(x),
        (None, y) => y,
    }
}

/// The sooner of two instants, as far as they are known.
pub fn sooner(a: Option<Instant>, b: Option<Instant>) -> (s: Option<Instant>)
    ensures
        s == spec_sooner(a, b),
{
    match (a, b) {
        (Some(x), Some(y)) => if y.nanos < x.nanos {
            Some(y)
        } else {
            Some(x)
        },
        (Some(x), None) => Some(x),
        (None, y) => y,
    }
}

/// The soonest that one of the open targets stops cooling.
pub open spec fn soonest(health: Seq<Health>) -> Option<Instant>
    decreases health.len(),
{
    if health.len() == 0 {
        None
    } else if health.last().open() {
        spec_sooner(soonest(health.drop_last()), health.last().cooling_until)
    } else {
        soonest(health.drop_last())
    }
}

/// The soonest end of a cooldown is that of an open target, and no open target cools down
/// sooner; there is none where no open target tells.
pub proof fn law_soonest_is_the_least(health: Seq<Health>)
    ensures
        match soonest(health) {
            Some(t) => {
                &&& exists|i: int|
                    0 <= i < health.len() && (#[trigger] health[i]).open()
                        && health[i].cooling_until == Some(t)
                &&& forall|i: int|
                    0 <= i < health.len() && (#[trigger] health[i]).open() ==> (
                    health[i].cooling_until matches Some(u) ==> t.nanos <= u.nanos)
            },
            None => forall|i: int|
                0 <= i < health.len() && (#[trigger] health[i]).open()
                    ==> health[i].cooling_until is None,
        },
    decreases health.len(),
{
    if health.len() > 0 {
        let fewer = health.drop_last();
        law_soonest_is_the_least(fewer);
        assert(forall|i: int| 0 <= i < fewer.len() ==> #[trigger] health[i] == fewer[i]);
        if let Some(t) = soonest(health) {
            if soonest(fewer) == Some(t) {
                let i = choose|i: int|
                    0 <= i < fewer.len() && (#[trigger] fewer[i]).open() && fewer[i].cooling_until
                        == Some(t);
                assert(health[i].open());
            } else {
                assert(health[health.len() - 1].open());
            }
        }
    }
}

} // verus!
