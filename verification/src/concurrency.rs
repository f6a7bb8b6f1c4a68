//! Bounded concurrency: a counting semaphore with a queue of waiters, and the policy
//! for calls that meet it saturated.
//!
//! The semaphore is a plain state. A waiter is known by its [`Ticket`] and leaves
//! whatever is needed to wake it, a `W`, in the queue.

use std::collections::VecDeque;

use vstd::prelude::*;

use crate::time::Duration;

verus! {

/// What happens when all permits are taken.
#[derive(Debug, Clone, Copy, PartialEq, Eq)]
pub enum SaturationPolicy {
    /// Queue up to `max_queued` callers, each waiting at most `queue_timeout`.
    Wait { max_queued: usize, queue_timeout: Option<Duration> },
    /// Reject at once.
    Reject,
}

/// Whether the limit counts whole operations or single attempts.
#[derive(Debug, Clone, Copy, PartialEq, Eq, Structural)]
pub enum Scope {
    Operations,
    Attempts,
}

/// Bounded-concurrency configuration.
#[derive(Debug, Clone, Copy)]
pub struct ConcurrencyLimit {
    permits: usize,
    scope: Scope,
    saturation: SaturationPolicy,
}

/// What a [`ConcurrencyLimit`] is configured to do.
pub ghost struct LimitModel {
    pub permits: usize,
    pub scope: Scope,
    pub saturation: SaturationPolicy,
}

impl LimitModel {
    /// At least one permit, and a queue without bounds.
    pub open spec fn plain(n: usize, scope: Scope) -> LimitModel {
        LimitModel {
            permits: if n == 0 {
                1
            } else {
                n
            },
            scope,
            saturation: SaturationPolicy::Wait { max_queued: usize::MAX, queue_timeout: None },
        }
    }
}

impl View for ConcurrencyLimit {
    type V = LimitModel;

    closed spec fn view(&self) -> LimitModel {
        LimitModel { permits: self.permits, scope: self.scope, saturation: self.saturation }
    }
}

impl ConcurrencyLimit {
    #[verifier::type_invariant]
    spec fn usable(self) -> bool {
        self.permits >= 1
    }

    /// Limit concurrent operations: one permit for each top-level call.
    pub fn operations(n: usize) -> (l: ConcurrencyLimit)
        ensures
            l@ == LimitModel::plain(n, Scope::Operations),
    {
        Self::new(n, Scope::Operations)
    }

    /// Limit concurrent attempts: one permit for each attempt, retries included.
    pub fn attempts(n: usize) -> (l: ConcurrencyLimit)
        ensures
            l@ == LimitModel::plain(n, Scope::Attempts),
    {
        Self::new(n, Scope::Attempts)
    }

    fn new(permits: usize, scope: Scope) -> (l: ConcurrencyLimit)
        ensures
            l@ == LimitModel::plain(permits, scope),
    {
        ConcurrencyLimit {
            permits: if permits == 0 {
                1
            } else {
                permits
            },
            scope,
            saturation: SaturationPolicy::Wait { max_queued: usize::MAX, queue_timeout: None },
        }
    }

    /// Cap the number of waiting callers. Excess callers are rejected.
    pub fn max_queued(self, n: usize) -> (l: ConcurrencyLimit)
        ensures
            l@ == (LimitModel {
                saturation: match self@.saturation {
                    SaturationPolicy::Wait { max_queued: _, queue_timeout } => {
                        SaturationPolicy::Wait { max_queued: n, queue_timeout }
                    },
                    SaturationPolicy::Reject => SaturationPolicy::Reject,
                },
                ..self@
            }),
    {
        proof {
            use_type_invariant(&self);
        }
        let saturation = match self.saturation {
            SaturationPolicy::Wait { max_queued: _, queue_timeout } => SaturationPolicy::Wait {
                max_queued: n,
                queue_timeout,
            },
            SaturationPolicy::Reject => SaturationPolicy::Reject,
        };
        ConcurrencyLimit { saturation, ..self }
    }

    /// The longest time that a caller waits in the queue before it is rejected.
    pub fn queue_timeout(self, d: Duration) -> (l: ConcurrencyLimit)
        ensures
            l@ == (LimitModel {
                saturation: match self@.saturation {
                    SaturationPolicy::Wait { max_queued, queue_timeout: _ } => {
                        SaturationPolicy::Wait { max_queued, queue_timeout: Some(d) }
                    },
                    SaturationPolicy::Reject => SaturationPolicy::Reject,
                },
                ..self@
            }),
    {
        proof {
            use_type_invariant(&self);
        }
        let saturation = match self.saturation {
            SaturationPolicy::Wait { max_queued, queue_timeout: _ } => SaturationPolicy::Wait {
                max_queued,
                queue_timeout: Some(d),
            },
            SaturationPolicy::Reject => SaturationPolicy::Reject,
        };
        ConcurrencyLimit { saturation, ..self }
    }

    /// Reject at once when saturated, in place of queueing.
    pub fn reject(self) -> (l: ConcurrencyLimit)
        ensures
            l@ == (LimitModel { saturation: SaturationPolicy::Reject, ..self@ }),
    {
        proof {
            use_type_invariant(&self);
        }
        ConcurrencyLimit { saturation: SaturationPolicy::Reject, ..self }
    }

    /// What happens when all permits are taken.
    pub fn saturation(&self) -> (p: SaturationPolicy)
        ensures
            p == self@.saturation,
    {
        self.saturation
    }

    /// A semaphore with all permits free.
    pub fn build<W>(&self) -> (s: Semaphore<W>)
        ensures
            s@.free == self@.permits,
            s@.capacity == self@.permits,
            s@.capacity >= 1,
            s@.queue == Seq::<(u64, W)>::empty(),
            s@.next_id == 0,
            s@.wf(),
    {
        proof {
            use_type_invariant(self);
        }
        Semaphore::new(self.permits)
    }

    /// The live semaphore and the policy around it.
    pub fn compile<W>(&self) -> (c: CompiledConcurrency<W>)
        ensures
            c.sem@.free == self@.permits,
            c.sem@.capacity == self@.permits,
            c.sem@.capacity >= 1,
            c.sem@.queue == Seq::<(u64, W)>::empty(),
            c.sem@.next_id == 0,
            c.sem@.wf(),
            c.saturation == self@.saturation,
            c.scope == self@.scope,
    {
        CompiledConcurrency { sem: self.build(), saturation: self.saturation, scope: self.scope }
    }
}

impl From<usize> for ConcurrencyLimit {
    /// `n` is short for `ConcurrencyLimit::operations(n)`.
    fn from(n: usize) -> (l: Self)
        ensures
            l@ == LimitModel::plain(n, Scope::Operations),
    {
        ConcurrencyLimit::operations(n)
    }
}

impl vstd::std_specs::convert::FromSpecImpl<usize> for ConcurrencyLimit {
    open spec fn obeys_from_spec() -> bool {
        true
    }

    closed spec fn from_spec(n: usize) -> Self {
        ConcurrencyLimit {
            permits: if n == 0 {
                1
            } else {
                n
            },
            scope: Scope::Operations,
            saturation: SaturationPolicy::Wait { max_queued: usize::MAX, queue_timeout: None },
        }
    }
}

impl From<u32> for ConcurrencyLimit {
    /// `n` is short for `ConcurrencyLimit::operations(n)`.
    fn from(n: u32) -> (l: Self)
        ensures
            l@ == LimitModel::plain(n as usize, Scope::Operations),
    {
        ConcurrencyLimit::operations(n as usize)
    }
}

impl vstd::std_specs::convert::FromSpecImpl<u32> for ConcurrencyLimit {
    open spec fn obeys_from_spec() -> bool {
        true
    }

    closed spec fn from_spec(n: u32) -> Self {
        ConcurrencyLimit {
            permits: if n == 0 {
                1
            } else {
                n as usize
            },
            scope: Scope::Operations,
            saturation: SaturationPolicy::Wait { max_queued: usize::MAX, queue_timeout: None },
        }
    }
}

/// A held permit: the right to give one back.
#[derive(Debug)]
pub struct Permit {
    _private: (),
}

/// A caller that waits for a permit.
#[derive(Debug)]
pub struct Ticket {
    id: u64,
}

impl Ticket {
    pub closed spec fn spec_id(&self) -> u64 {
        self.id
    }
}

/// A counting semaphore.
#[verifier::reject_recursive_types(W)]
#[derive(Debug)]
pub struct Semaphore<W> {
    free: usize,
    capacity: usize,
    queue: VecDeque<(u64, W)>,
    next_id: u64,
}

/// The state of a [`Semaphore`].
#[verifier::ext_equal]
pub ghost struct SemaphoreModel<W> {
    pub free: usize,
    pub capacity: usize,
    /// The callers that wait, the one that came first in front, each with what wakes it.
    pub queue: Seq<(u64, W)>,
    pub next_id: u64,
}

impl<W> SemaphoreModel<W> {
    /// No more permits are free than there are, no caller is queued twice, and no
    /// ticket is in the queue that was not handed out.
    pub open spec fn wf(self) -> bool {
        &&& self.free <= self.capacity
        &&& forall|i: int, j: int|
            0 <= i < j < self.queue.len() ==> (#[trigger] self.queue[i]).0 != (
            #[trigger] self.queue[j]).0
        &&& forall|i: int| 0 <= i < self.queue.len() ==> (#[trigger] self.queue[i]).0 < self.next_id
    }

    /// How many permits are held.
    pub open spec fn held(self) -> int {
        self.capacity - self.free
    }

    /// Caller `id` is first found at place `i` of the queue, or not at all where `i` is
    /// its length.
    pub open spec fn at(self, id: u64, i: int) -> bool {
        &&& 0 <= i <= self.queue.len()
        &&& forall|j: int| 0 <= j < i ==> (#[trigger] self.queue[j]).0 != id
        &&& i < self.queue.len() ==> self.queue[i].0 == id
    }

    /// Caller `id` waits in the queue.
    pub open spec fn holds(self, id: u64) -> bool {
        exists|j: int| 0 <= j < self.queue.len() && (#[trigger] self.queue[j]).0 == id
    }

    /// With one permit taken.
    pub open spec fn taken(self) -> SemaphoreModel<W> {
        SemaphoreModel { free: (self.free - 1) as usize, ..self }
    }

    /// With caller `id`, found at `i`, waiting. A caller that waits already keeps its
    /// place.
    pub open spec fn waiting(self, id: u64, i: int, waker: W) -> SemaphoreModel<W> {
        SemaphoreModel {
            queue: if i < self.queue.len() {
                self.queue.update(i, (id, waker))
            } else {
                self.queue.push((id, waker))
            },
            ..self
        }
    }

    /// Without the caller found at `i`.
    pub open spec fn gone(self, i: int) -> SemaphoreModel<W> {
        SemaphoreModel {
            queue: if i < self.queue.len() {
                self.queue.remove(i)
            } else {
                self.queue
            },
            ..self
        }
    }

    /// Without the first caller of the queue, if there is one.
    pub open spec fn woken(self) -> SemaphoreModel<W> {
        self.gone(0)
    }

    /// What wakes the first caller of the queue, if there is one.
    pub open spec fn first(self) -> Option<W> {
        if self.queue.len() > 0 {
            Some(self.queue[0].1)
        } else {
            None
        }
    }
}

/// What can happen to a semaphore.
#[verifier::reject_recursive_types(W)]
pub ghost enum PermitOp<W> {
    /// A caller asks for a permit and takes one if one is free.
    Take,
    /// A held permit is given back.
    GiveBack,
    /// A caller that is going to wait is handed a ticket.
    Ticket,
    /// A caller that waits asks again, and waits on if no permit is free.
    Poll { id: u64, waker: W },
    /// A caller that waits goes away.
    Abandon { id: u64 },
}

impl<W> SemaphoreModel<W> {
    /// The semaphore after a held permit was given back.
    pub open spec fn given_back(self) -> SemaphoreModel<W> {
        SemaphoreModel { free: (self.free + 1) as usize, ..self.woken() }
    }

    /// Where caller `id` is found in the queue, or its length.
    pub open spec fn place_of(self, id: u64) -> int {
        choose|i: int| self.at(id, i)
    }

    /// A caller has one place.
    pub proof fn lemma_place_of(self, id: u64)
        ensures
            self.at(id, self.place_of(id)),
            forall|i: int| #[trigger] self.at(id, i) ==> i == self.place_of(id),
    {
        let first = self.lemma_found(id, self.queue.len());
        assert(self.at(id, first));
        let p = self.place_of(id);
        assert forall|i: int| #[trigger] self.at(id, i) implies i == p by {
            if i < p {
                assert(self.queue[i].0 != id);
            }
            if p < i {
                assert(self.queue[p].0 != id);
            }
        }
    }

    /// The first of `n` places at which caller `id` is found, or `n`.
    proof fn lemma_found(self, id: u64, n: nat) -> (i: int)
        requires
            n <= self.queue.len(),
        ensures
            0 <= i <= n,
            forall|j: int| 0 <= j < i ==> (#[trigger] self.queue[j]).0 != id,
            i < n ==> self.queue[i].0 == id,
        decreases n,
    {
        if n == 0 {
            0
        } else {
            let i = self.lemma_found(id, (n - 1) as nat);
            if i < n - 1 || self.queue[i].0 == id {
                i
            } else {
                i + 1
            }
        }
    }

    pub open spec fn after(self, op: PermitOp<W>) -> SemaphoreModel<W> {
        match op {
            PermitOp::Take => if self.free > 0 {
                self.taken()
            } else {
                self
            },
            PermitOp::GiveBack => if self.held() > 0 {
                self.given_back()
            } else {
                self
            },
            PermitOp::Ticket => if self.next_id < u64::MAX {
                SemaphoreModel { next_id: (self.next_id + 1) as u64, ..self }
            } else {
                self
            },
            PermitOp::Poll { id, waker } => if id >= self.next_id {
                self
            } else if self.free > 0 {
                self.taken().gone(self.place_of(id))
            } else {
                self.waiting(id, self.place_of(id), waker)
            },
            PermitOp::Abandon { id } => if self.place_of(id) < self.queue.len() || self.free == 0 {
                self.gone(self.place_of(id))
            } else {
                self.woken()
            },
        }
    }

    /// The semaphore after a history of operations.
    pub open spec fn after_all(self, ops: Seq<PermitOp<W>>) -> SemaphoreModel<W>
        decreases ops.len(),
    {
        if ops.len() == 0 {
            self
        } else {
            self.after_all(ops.drop_last()).after(ops.last())
        }
    }

    /// How many permits a history of operations took, less those it gave back.
    pub open spec fn balance(self, ops: Seq<PermitOp<W>>) -> int
        decreases ops.len(),
    {
        if ops.len() == 0 {
            0
        } else {
            let before = self.after_all(ops.drop_last());
            self.balance(ops.drop_last()) + match ops.last() {
                PermitOp::Take => if before.free > 0 {
                    1int
                } else {
                    0
                },
                PermitOp::GiveBack => if before.held() > 0 {
                    -1int
                } else {
                    0
                },
                PermitOp::Poll { id, waker: _ } => if id < before.next_id && before.free > 0 {
                    1int
                } else {
                    0
                },
                _ => 0,
            }
        }
    }

    /// Permits are neither lost nor made: over any history those that are held and
    /// those that are free make up the capacity, and no more than the capacity are
    /// ever held at once.
    pub proof fn law_permits_are_conserved(self, ops: Seq<PermitOp<W>>)
        requires
            self.wf(),
        ensures
            self.after_all(ops).wf(),
            self.after_all(ops).capacity == self.capacity,
            self.after_all(ops).held() == self.held() + self.balance(ops),
            0 <= self.after_all(ops).held() <= self.capacity,
        decreases ops.len(),
    {
        if ops.len() > 0 {
            self.law_permits_are_conserved(ops.drop_last());
            let before = self.after_all(ops.drop_last());
            match ops.last() {
                PermitOp::Poll { id, waker } => {
                    before.lemma_place_of(id);
                    if id < before.next_id {
                        before.law_queue_stays_well_formed(id, before.place_of(id), waker);
                    }
                },
                PermitOp::Abandon { id } => {
                    before.lemma_place_of(id);
                },
                _ => {},
            }
        }
    }

    /// Waiting, leaving the queue and being woken keep the semaphore well formed: in
    /// particular no caller is ever queued twice.
    pub proof fn law_queue_stays_well_formed(self, id: u64, i: int, waker: W)
        requires
            self.wf(),
            id < self.next_id,
            self.at(id, i),
        ensures
            self.waiting(id, i, waker).wf(),
            self.gone(i).wf(),
            self.woken().wf(),
            self.free > 0 ==> self.taken().gone(i).wf(),
    {
        let after = self.waiting(id, i, waker);
        if i < self.queue.len() {
            assert forall|a: int, b: int| 0 <= a < b < after.queue.len() implies (
            #[trigger] after.queue[a]).0 != (#[trigger] after.queue[b]).0 by {
                assert(self.queue[a].0 == after.queue[a].0);
                assert(self.queue[b].0 == after.queue[b].0);
            }
        }
    }

    /// Callers are woken in the order in which they came: a release wakes the first of
    /// the queue, a new caller queues behind all others, and one that is polled again
    /// keeps its place.
    pub proof fn law_first_come_first_woken(self, id: u64, i: int, waker: W)
        requires
            self.at(id, i),
        ensures
            self.queue.len() > 0 ==> self.given_back().queue == self.queue.drop_first()
                && self.first() == Some(self.queue.first().1),
            forall|j: int|
                0 <= j < self.queue.len() && j != i ==> self.waiting(
                    id,
                    i,
                    waker,
                ).queue[j] == #[trigger] self.queue[j],
            self.waiting(id, i, waker).queue[i] == (id, waker),
    {
        if self.queue.len() > 0 {
            assert(self.given_back().queue =~= self.queue.drop_first());
        }
    }
}

impl<W> View for Semaphore<W> {
    type V = SemaphoreModel<W>;

    closed spec fn view(&self) -> SemaphoreModel<W> {
        SemaphoreModel {
            free: self.free,
            capacity: self.capacity,
            queue: self.queue@,
            next_id: self.next_id,
        }
    }
}

impl<W> Semaphore<W> {
    fn new(permits: usize) -> (s: Self)
        ensures
            s@ == (SemaphoreModel::<W> {
                free: permits,
                capacity: permits,
                queue: Seq::empty(),
                next_id: 0,
            }),
    {
        Semaphore { free: permits, capacity: permits, queue: VecDeque::new(), next_id: 0 }
    }

    /// How many permits are free.
    pub fn free(&self) -> (n: usize)
        ensures
            n == self@.free,
    {
        self.free
    }

    /// How many permits there are.
    pub fn capacity(&self) -> (n: usize)
        ensures
            n == self@.capacity,
    {
        self.capacity
    }

    /// How many callers are queued.
    pub fn queued(&self) -> (n: usize)
        ensures
            n == self@.queue.len(),
    {
        self.queue.len()
    }

    /// Take a permit without waiting, if one is free.
    pub fn try_acquire(&mut self) -> (p: Option<Permit>)
        ensures
            p is Some == (old(self)@.free > 0),
            final(self)@ == (if old(self)@.free > 0 {
                old(self)@.taken()
            } else {
                old(self)@
            }),
    {
        if self.free > 0 {
            self.free = self.free - 1;
            Some(Permit { _private: () })
        } else {
            None
        }
    }

    /// How many more tickets can be handed out.
    pub fn tickets_left(&self) -> (n: u64)
        ensures
            n == u64::MAX - self@.next_id,
    {
        u64::MAX - self.next_id
    }

    /// Hand out a ticket to a caller that is going to wait. Nothing is queued until
    /// the caller is polled.
    pub fn acquire(&mut self) -> (t: Ticket)
        requires
            old(self)@.next_id < u64::MAX,
        ensures
            t.spec_id() == old(self)@.next_id,
            final(self)@ == (SemaphoreModel {
                next_id: (old(self)@.next_id + 1) as u64,
                ..old(self)@
            }),
    {
        let id: u64 = self.next_id;
        self.next_id = id + 1;
        Ticket { id }
    }

    fn place(&self, id: u64) -> (i: usize)
        ensures
            self@.at(id, i as int),
    {
        let mut i: usize = 0;
        while i < self.queue.len()
            invariant
                i <= self.queue@.len(),
                forall|j: int| 0 <= j < i ==> (#[trigger] self.queue@[j]).0 != id,
            decreases self.queue@.len() - i,
        {
            if self.queue[i].0 == id {
                return i;
            }
            i = i + 1;
        }
        i
    }

    /// Take a permit for a waiting caller if one is free, and have the caller wait
    /// otherwise. `waker` is what wakes it when a permit is given back.
    pub fn poll(&mut self, ticket: &Ticket, waker: W) -> (p: Option<Permit>)
        ensures
            p is Some == (old(self)@.free > 0),
            exists|i: int| #[trigger]
                old(self)@.at(ticket.spec_id(), i) && final(self)@ == (if old(self)@.free > 0 {
                    old(self)@.taken().gone(i)
                } else {
                    old(self)@.waiting(ticket.spec_id(), i, waker)
                }),
            p is None ==> {
                &&& final(self)@.holds(ticket.spec_id())
                &&& final(self)@.queue.len() == old(self)@.queue.len() + if old(self)@.holds(
                    ticket.spec_id(),
                ) {
                    0int
                } else {
                    1
                }
            },
    {
        let i: usize = self.place(ticket.id);
        assert(old(self)@.at(ticket.spec_id(), i as int));
        if self.free > 0 {
            self.free = self.free - 1;
            if i < self.queue.len() {
                let _ = self.queue.remove(i);
            }
            Some(Permit { _private: () })
        } else {
            if i < self.queue.len() {
                let _ = self.queue.remove(i);
                self.queue.insert(i, (ticket.id, waker));
                assert(self.queue@ =~= old(self).queue@.update(i as int, (ticket.id, waker)));
                assert(old(self)@.queue[i as int].0 == ticket.spec_id());
            } else {
                self.queue.push_back((ticket.id, waker));
            }
            assert(self@.queue[i as int].0 == ticket.spec_id());
            None
        }
    }

    /// Take back a ticket whose caller no longer waits. If the caller had been woken
    /// for a permit that is still free, the next one in the queue is to be woken.
    pub fn abandon(&mut self, ticket: Ticket) -> (wake: Option<W>)
        ensures
            exists|i: int| #[trigger]
                old(self)@.at(ticket.spec_id(), i) && if i < old(self)@.queue.len() || old(
                    self,
                )@.free == 0 {
                    final(self)@ == old(self)@.gone(i) && wake is None
                } else {
                    final(self)@ == old(self)@.woken() && wake == old(self)@.first()
                },
    {
        let i: usize = self.place(ticket.id);
        assert(old(self)@.at(ticket.spec_id(), i as int));
        if i < self.queue.len() {
            let _ = self.queue.remove(i);
            None
        } else if self.free == 0 {
            None
        } else {
            self.wake_first()
        }
    }

    fn wake_first(&mut self) -> (wake: Option<W>)
        ensures
            final(self)@ == old(self)@.woken(),
            wake == old(self)@.first(),
    {
        match self.queue.pop_front() {
            Some(entry) => {
                assert(self.queue@ =~= old(self).queue@.remove(0));
                Some(entry.1)
            },
            None => None,
        }
    }

    /// Give a permit back. The first caller of the queue is to be woken.
    pub fn release(&mut self, permit: Permit) -> (wake: Option<W>)
        requires
            old(self)@.free < old(self)@.capacity,
        ensures
            final(self)@ == old(self)@.given_back(),
            wake == old(self)@.first(),
    {
        self.free = self.free + 1;
        self.wake_first()
    }
}

/// A live semaphore and the policy around it.
#[verifier::reject_recursive_types(W)]
#[derive(Debug)]
pub struct CompiledConcurrency<W> {
    pub sem: Semaphore<W>,
    pub saturation: SaturationPolicy,
    pub scope: Scope,
}

/// `a` answers a request that meets the semaphore so.
pub open spec fn answers<W>(
    sem: SemaphoreModel<W>,
    saturation: SaturationPolicy,
    a: Admission,
) -> bool {
    if sem.free > 0 {
        a is Granted
    } else {
        match saturation {
            SaturationPolicy::Reject => a is Rejected,
            SaturationPolicy::Wait { max_queued, queue_timeout } => if sem.queue.len()
                < max_queued {
                a == (Admission::Queue { timeout: queue_timeout })
            } else {
                a is Rejected
            },
        }
    }
}

/// How a request for a permit is answered.
#[derive(Debug)]
pub enum Admission {
    Granted(Permit),
    Rejected,
    /// Wait in the queue, but no longer than `timeout`.
    Queue { timeout: Option<Duration> },
}

/// How a caller that waits for a permit stands.
#[derive(Debug)]
pub enum Waiting {
    Granted(Permit),
    Rejected,
    Pending,
}

impl<W> CompiledConcurrency<W> {
    /// Ask for a permit. A free one is granted; otherwise the policy decides.
    pub fn request(&mut self) -> (a: Admission)
        ensures
            final(self).saturation == old(self).saturation,
            final(self).scope == old(self).scope,
            a is Granted == (old(self).sem@.free > 0),
            answers(old(self).sem@, old(self).saturation, a),
            final(self).sem@ == (if old(self).sem@.free > 0 {
                old(self).sem@.taken()
            } else {
                old(self).sem@
            }),
            old(self).sem@.free == 0 ==> match old(self).saturation {
                SaturationPolicy::Reject => a is Rejected,
                SaturationPolicy::Wait { max_queued, queue_timeout } => if old(
                    self,
                ).sem@.queue.len() >= max_queued {
                    a is Rejected
                } else {
                    a == (Admission::Queue { timeout: queue_timeout })
                },
            },
    {
        if let Some(permit) = self.sem.try_acquire() {
            return Admission::Granted(permit);
        }
        match self.saturation {
            SaturationPolicy::Reject => Admission::Rejected,
            SaturationPolicy::Wait { max_queued, queue_timeout } => if self.sem.queued()
                >= max_queued {
                Admission::Rejected
            } else {
                Admission::Queue { timeout: queue_timeout }
            },
        }
    }
}

/// Settle a wait: a permit that has come is taken even where time is up as well.
pub fn settle_wait(permit: Option<Permit>, queue_elapsed: bool, deadline_elapsed: bool) -> (w:
    Waiting)
    ensures
        w == (match permit {
            Some(p) => Waiting::Granted(p),
            None => if queue_elapsed || deadline_elapsed {
                Waiting::Rejected
            } else {
                Waiting::Pending
            },
        }),
{
    match permit {
        Some(p) => Waiting::Granted(p),
        None => if queue_elapsed || deadline_elapsed {
            Waiting::Rejected
        } else {
            Waiting::Pending
        },
    }
}

/// A free permit is always granted. Without one, a caller is sent to the queue exactly where
/// waiting is allowed and there is room, to wait as long as the policy says, and is turned
/// away otherwise.
pub proof fn law_requests_are_answered<W>(
    sem: SemaphoreModel<W>,
    saturation: SaturationPolicy,
    a: Admission,
)
    requires
        answers(sem, saturation, a),
    ensures
        a is Granted <==> sem.free > 0,
        a is Rejected <==> sem.free == 0 && (saturation matches SaturationPolicy::Wait {
            max_queued,
            queue_timeout: _,
        } ==> sem.queue.len() >= max_queued),
        a matches Admission::Queue { timeout } ==> (saturation matches SaturationPolicy::Wait {
            max_queued,
            queue_timeout,
        } && sem.queue.len() < max_queued && timeout == queue_timeout),
{
}

/// A caller that waits takes a permit as soon as it gets one, whatever the time; it gives up
/// once its time in the queue or the time of its call has run out, and waits on otherwise.
pub proof fn law_permits_come_before_the_time(
    permit: Option<Permit>,
    queue_elapsed: bool,
    deadline_elapsed: bool,
    w: Waiting,
)
    requires
        call_ensures(settle_wait, (permit, queue_elapsed, deadline_elapsed), w),
    ensures
        w is Granted <==> permit is Some,
        w is Rejected <==> permit is None && (queue_elapsed || deadline_elapsed),
        w is Pending <==> permit is None && !queue_elapsed && !deadline_elapsed,
{
}

impl<W> SemaphoreModel<W> {
    /// Every operation does to the permits what it is for: a free one is taken, by a caller
    /// that asks or by one that waited; a held one is given back; and nothing else moves
    /// them.
    pub proof fn law_operations_move_permits(self, id: u64, waker: W)
        requires
            self.wf(),
            id < self.next_id,
        ensures
            self.after(PermitOp::Take).free == if self.free > 0 {
                self.free - 1
            } else {
                0
            },
            self.after(PermitOp::Take).queue == self.queue,
            self.free < self.capacity ==> self.after(PermitOp::GiveBack).free == self.free + 1,
            self.after(PermitOp::Poll { id, waker }).free == if self.free > 0 {
                self.free - 1
            } else {
                0
            },
            self.after(PermitOp::Abandon { id }).free == self.free,
            self.after(PermitOp::Ticket).free == self.free,
            self.after(PermitOp::Ticket).queue == self.queue,
    {
    }

    /// A caller that waits is in the queue once and behind those who came before it; one that
    /// gets its permit or goes away is not in it any more, and everyone else keeps waiting.
    pub proof fn law_waiting_callers_are_queued(self, id: u64, waker: W)
        requires
            self.wf(),
            id < self.next_id,
        ensures
            self.free == 0 ==> {
                let after = self.after(PermitOp::Poll { id, waker });
                &&& after.holds(id)
                &&& after.queue.len() == self.queue.len() + if self.holds(id) {
                    0int
                } else {
                    1
                }
                &&& forall|j: int|
                    0 <= j < self.queue.len() ==> (#[trigger] after.queue[j]).0 == self.queue[j].0
            },
            self.free > 0 ==> !self.after(PermitOp::Poll { id, waker }).holds(id),
            self.free == 0 || self.holds(id) ==> {
                let after = self.after(PermitOp::Abandon { id });
                &&& !after.holds(id)
                &&& after.queue.len() == self.queue.len() - if self.holds(id) {
                    1int
                } else {
                    0
                }
            },
            self.free > 0 && !self.holds(id) && self.queue.len() > 0 ==> {
                let after = self.after(PermitOp::Abandon { id });
                after.queue == self.queue.drop_first()
            },
            self.held() > 0 && self.queue.len() > 0 ==> self.after(PermitOp::GiveBack).queue
                == self.queue.drop_first(),
            self.held() > 0 && self.queue.len() == 0 ==> self.after(PermitOp::GiveBack).queue
                == self.queue,
    {
        self.lemma_place_of(id);
        let i = self.place_of(id);
        if i < self.queue.len() {
            assert(self.queue[i].0 == id);
            assert(self.holds(id));
            let gone = self.queue.remove(i);
            assert forall|j: int| 0 <= j < gone.len() implies (#[trigger] gone[j]).0 != id by {
                if j < i {
                    assert(gone[j] == self.queue[j]);
                } else {
                    assert(gone[j] == self.queue[j + 1]);
                    assert(self.queue[i].0 != self.queue[j + 1].0);
                }
            }
        } else {
            assert(!self.holds(id));
        }
        if self.free == 0 {
            let after = self.after(PermitOp::Poll { id, waker });
            assert(after.queue[i].0 == id);
        }
        if self.queue.len() > 0 {
            assert(self.queue.remove(0) =~= self.queue.drop_first());
        }
    }
}

/// A limit allows as many as it was made for, but at least one; callers wait without bounds of
/// number or time until it is told otherwise, and what is set stays set.
pub proof fn law_limits_are_as_configured(
    n: usize,
    most: usize,
    longest: Duration,
    operations: ConcurrencyLimit,
    attempts: ConcurrencyLimit,
    capped: ConcurrencyLimit,
    timed: ConcurrencyLimit,
    rejecting: ConcurrencyLimit,
)
    requires
        call_ensures(ConcurrencyLimit::operations, (n,), operations),
        call_ensures(ConcurrencyLimit::attempts, (n,), attempts),
        call_ensures(ConcurrencyLimit::max_queued, (operations, most), capped),
        call_ensures(ConcurrencyLimit::queue_timeout, (capped, longest), timed),
        call_ensures(ConcurrencyLimit::reject, (timed,), rejecting),
    ensures
        n > 0 ==> operations@.permits == n,
        n == 0 ==> operations@.permits == 1,
        attempts@.permits == operations@.permits,
        operations@.scope == Scope::Operations,
        attempts@.scope == Scope::Attempts,
        operations@.saturation matches SaturationPolicy::Wait { max_queued, queue_timeout }
            && max_queued == usize::MAX && queue_timeout is None,
        attempts@.saturation == operations@.saturation,
        timed@.saturation matches SaturationPolicy::Wait { max_queued, queue_timeout }
            && max_queued == most && queue_timeout == Some(longest),
        timed@.permits == operations@.permits,
        timed@.scope == operations@.scope,
        rejecting@.saturation is Reject,
        rejecting@.permits == operations@.permits,
        rejecting@.scope == operations@.scope,
{
}

/// A limit that rejects has no queue, and gets none by setting how long it may be or how long
/// callers may wait in it.
pub proof fn law_rejecting_limits_have_no_queue(
    limit: ConcurrencyLimit,
    n: usize,
    d: Duration,
    capped: ConcurrencyLimit,
    timed: ConcurrencyLimit,
)
    requires
        limit@.saturation is Reject,
        call_ensures(ConcurrencyLimit::max_queued, (limit, n), capped),
        call_ensures(ConcurrencyLimit::queue_timeout, (limit, d), timed),
    ensures
        capped@.saturation is Reject,
        timed@.saturation is Reject,
        capped@.permits == limit@.permits,
        timed@.permits == limit@.permits,
{
}

} // verus!
