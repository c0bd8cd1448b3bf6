//! Core of the priority semaphore: the permit counter, the closed flag, the
//! wait queue and the slots handed to resumed waiters, with the rules by which
//! permits are granted, returned and handed on.

use crate::error::TryAcquireError;
use crate::grants::Grants;
use crate::permit::Permit;
use crate::queue::{Priority, WaitQueue, WaiterEntry};
use crate::waiter::AcquireFuture;
use core::task::Waker;
use vstd::prelude::*;
use vstd::set_lib::lemma_set_empty_equivalency_len;

verus! {

/// What a semaphore is, as far as its callers can tell.
pub struct SemaphoreState {
    /// The number of permits the semaphore was created with.
    pub capacity: nat,
    /// Permits that can be granted right now.
    pub available: nat,
    /// Whether the semaphore has been closed.
    pub closed: bool,
    /// The suspended waiters, keyed by id.
    pub waiting: Map<usize, WaiterEntry>,
    /// The id the next waiter will get.
    pub next_id: nat,
    /// Permits granted and not yet released.
    pub held: nat,
    /// The waiters that a release has handed its slot to and that have not
    /// taken it yet.
    pub granted: Set<usize>,
    /// The ids of the waiters that were chosen for resumption, oldest first.
    /// The log tells who was chosen; that the waiter's handle was invoked is
    /// beyond what it can tell.
    pub resumed: Seq<usize>,
}

impl SemaphoreState {
    /// What holds of a semaphore in every state it can reach, but with
    /// `spare` slots in passage from one place to the next: every other slot
    /// is free, held or handed to a waiter; the queue and the handed slots are
    /// finite and belong to different, already issued ids; nobody waits while
    /// the semaphore is closed or a permit is free; and a closed semaphore
    /// keeps no slot for a waiter.
    pub open spec fn inv_with_spare(self, spare: nat) -> bool {
        &&& self.available + self.held + self.granted.len() + spare == self.capacity
        &&& self.waiting.dom().finite()
        &&& self.granted.finite()
        &&& forall|id: usize| #[trigger]
            self.waiting.dom().contains(id) ==> id < self.next_id && self.waiting[id].id == id
        &&& forall|id: usize| #[trigger]
            self.granted.contains(id) ==> id < self.next_id && !self.waiting.dom().contains(id)
        &&& self.closed || self.available > 0 ==> self.waiting == Map::<
            usize,
            WaiterEntry,
        >::empty()
        &&& self.closed ==> self.granted == Set::<usize>::empty()
    }

    /// What holds of a semaphore in every state it can reach.
    pub open spec fn inv(self) -> bool {
        self.inv_with_spare(0)
    }

    /// A fresh semaphore of the given capacity.
    pub open spec fn initial(capacity: nat) -> Self {
        SemaphoreState {
            capacity,
            available: capacity,
            closed: false,
            waiting: Map::empty(),
            next_id: 0,
            held: 0,
            granted: Set::empty(),
            resumed: Seq::empty(),
        }
    }

    /// A permit can be granted from the counter on the spot.
    pub open spec fn can_acquire(self) -> bool {
        !self.closed && self.available > 0
    }

    /// The state after a permit has been granted from the counter.
    pub open spec fn acquired(self) -> Self {
        SemaphoreState { available: (self.available - 1) as nat, held: self.held + 1, ..self }
    }

    /// The state after the waiter `id` has taken the slot handed to it: the
    /// slot becomes a live permit, and the counter is not touched.
    pub open spec fn claimed(self, id: usize) -> Self {
        SemaphoreState { granted: self.granted.remove(id), held: self.held + 1, ..self }
    }

    /// The state in which a live permit has ended and its slot is in passage.
    pub open spec fn released(self) -> Self {
        SemaphoreState { held: (self.held - 1) as nat, ..self }
    }

    /// The state in which the waiter `id` has given up the slot handed to it
    /// and the slot is in passage.
    pub open spec fn revoked(self, id: usize) -> Self {
        SemaphoreState { granted: self.granted.remove(id), ..self }
    }

    /// A slot in passage goes to a waiter rather than to the counter.
    pub open spec fn hands_over(self) -> bool {
        !self.closed && self.waiting.len() > 0
    }

    /// `id` is queued and no queued waiter is more urgent.
    pub open spec fn is_highest(self, id: usize) -> bool {
        &&& self.waiting.dom().contains(id)
        &&& forall|other: usize| #[trigger]
            self.waiting.dom().contains(other) ==> self.waiting[other].prio
                <= self.waiting[id].prio
    }

    /// The state after the slot in passage has been handed to the waiter
    /// `id`: the waiter leaves the queue, holds the slot and is chosen for
    /// resumption; the counter is not touched.
    pub open spec fn handed_to(self, id: usize) -> Self {
        SemaphoreState {
            waiting: self.waiting.remove(id),
            granted: self.granted.insert(id),
            resumed: self.resumed.push(id),
            ..self
        }
    }

    /// The state after the slot in passage has gone to the counter.
    pub open spec fn returned(self) -> Self {
        SemaphoreState { available: self.available + 1, ..self }
    }

    /// The state after a waiter with the given priority and handle has joined the queue.
    pub open spec fn enqueued(self, prio: Priority, waker: Waker) -> Self {
        SemaphoreState {
            waiting: self.waiting.insert(
                self.next_id as usize,
                WaiterEntry { prio, waker, id: self.next_id as usize },
            ),
            next_id: self.next_id + 1,
            ..self
        }
    }

    /// The state after the waiter `id`, if queued, has been given a new handle.
    pub open spec fn refreshed(self, id: usize, waker: Waker) -> Self {
        if self.waiting.dom().contains(id) {
            SemaphoreState {
                waiting: self.waiting.insert(id, WaiterEntry { waker, ..self.waiting[id] }),
                ..self
            }
        } else {
            self
        }
    }

    /// The state after the waiter `id` has left the queue without being resumed.
    pub open spec fn removed(self, id: usize) -> Self {
        SemaphoreState { waiting: self.waiting.remove(id), ..self }
    }

    /// `order` lists every queued waiter exactly once, more urgent waiters first.
    pub open spec fn drain_order(self, order: Seq<usize>) -> bool {
        &&& order.no_duplicates()
        &&& forall|id: usize| self.waiting.dom().contains(id) <==> order.contains(id)
        &&& forall|i: int, j: int|
            0 <= i < j < order.len() ==> self.waiting[order[i]].prio >= self.waiting[order[j]].prio
    }

    /// `post` is what a call of `close` makes of this state: nothing if it was
    /// closed already; otherwise the flag is set, the slots that waiters hold
    /// and have not taken go back to the counter, and the whole queue is
    /// drained, its waiters chosen for resumption in priority order.
    pub open spec fn closes(self, post: Self) -> bool {
        if self.closed {
            post == self
        } else {
            &&& post == SemaphoreState {
                closed: true,
                available: self.available + self.granted.len(),
                waiting: Map::empty(),
                granted: Set::empty(),
                resumed: post.resumed,
                ..self
            }
            &&& self.resumed.len() <= post.resumed.len()
            &&& post.resumed.take(self.resumed.len() as int) == self.resumed
            &&& self.drain_order(post.resumed.skip(self.resumed.len() as int))
        }
    }

    /// `post` is what a release makes of this state. With no live permit
    /// behind it a release changes nothing. Otherwise the permit ends, and
    /// its slot goes to a most urgent waiter, where the semaphore is open and
    /// somebody waits, and to the counter where not.
    pub open spec fn releases(self, post: Self) -> bool {
        if self.held == 0 {
            post == self
        } else if self.hands_over() {
            &&& post.resumed.len() > 0
            &&& self.is_highest(post.resumed.last())
            &&& post == self.released().handed_to(post.resumed.last())
        } else {
            post == self.released().returned()
        }
    }

    /// `post` is what this state becomes when the waiter `id` is taken out.
    /// A waiter in the queue leaves it. A waiter that holds a handed slot
    /// gives it up, and the slot goes to a most urgent waiter, where the
    /// semaphore is open and somebody waits, and to the counter where not.
    pub open spec fn drops_waiter(self, id: usize, post: Self) -> bool {
        if !self.granted.contains(id) {
            post == self.removed(id)
        } else if self.hands_over() {
            &&& post.resumed.len() > 0
            &&& self.is_highest(post.resumed.last())
            &&& post == self.revoked(id).handed_to(post.resumed.last())
        } else {
            post == self.revoked(id).returned()
        }
    }

    /// `post` is this state, or what one transition makes of it. Every
    /// operation of the semaphore takes it from a state to one that this
    /// relation allows.
    pub open spec fn steps_to(self, post: Self) -> bool {
        ||| post == self
        ||| self.can_acquire() && post == self.acquired()
        ||| exists|id: usize| self.granted.contains(id) && post == #[trigger] self.claimed(id)
        ||| self.releases(post)
        ||| exists|id: usize| #[trigger] self.drops_waiter(id, post)
        ||| self.closes(post)
        ||| !self.closed && self.available == 0 && self.next_id < usize::MAX && exists|
            prio: Priority,
            waker: Waker,
        | post == #[trigger] self.enqueued(prio, waker)
        ||| exists|id: usize, waker: Waker| post == #[trigger] self.refreshed(id, waker)
    }
}

/// Priority semaphore: a counter of free permits, a queue of waiters that
/// are resumed most urgent first, and the slots handed to resumed waiters.
pub struct PrioritySemaphore {
    permits: usize,
    waiters: WaitQueue,
    granted: Grants,
    max_permit: usize,
    closed: bool,
    held: Ghost<nat>,
    resumed: Ghost<Seq<usize>>,
}

impl View for PrioritySemaphore {
    type V = SemaphoreState;

    closed spec fn view(&self) -> SemaphoreState {
        SemaphoreState {
            capacity: self.max_permit as nat,
            available: self.permits as nat,
            closed: self.closed,
            waiting: self.waiters@,
            next_id: self.waiters.next_id(),
            held: self.held@,
            granted: self.granted@,
            resumed: self.resumed@,
        }
    }
}

impl PrioritySemaphore {
    /// The storage of the wait queue and of the handed slots is sound.
    pub closed spec fn well_stored(&self) -> bool {
        &&& self.waiters.well_stored()
        &&& self.granted.well_stored()
    }

    /// The semaphore's invariant.
    pub open spec fn wf(&self) -> bool {
        &&& self.well_stored()
        &&& self@.inv()
    }

    /// Creates a semaphore with the given number of permits.
    pub fn new(permits: usize) -> (sem: Self)
        ensures
            sem.wf(),
            sem@ == SemaphoreState::initial(permits as nat),
    {
        Self {
            permits,
            waiters: WaitQueue::new(),
            granted: Grants::new(),
            max_permit: permits,
            closed: false,
            held: Ghost(0),
            resumed: Ghost(Seq::empty()),
        }
    }

    /// Starts an acquire operation of the given priority. The operation has
    /// not touched the semaphore yet; it does so when it is polled.
    pub fn acquire(&self, prio: Priority) -> (op: AcquireFuture)
        ensures
            op.priority() == prio,
            op.is_fresh(),
    {
        AcquireFuture::new(prio)
    }

    /// Takes a permit from the counter if one is free. Never touches the queue.
    pub fn try_acquire(&mut self, _prio: Priority) -> (res: Result<Permit, TryAcquireError>)
        requires
            old(self).wf(),
        ensures
            final(self).wf(),
            old(self)@.closed ==> res == Err::<Permit, _>(TryAcquireError::Closed) && final(self)@
                == old(self)@,
            !old(self)@.closed && old(self)@.available == 0 ==> res == Err::<Permit, _>(
                TryAcquireError::NoPermits,
            ) && final(self)@ == old(self)@,
            old(self)@.can_acquire() ==> res is Ok && final(self)@ == old(self)@.acquired(),
            res is Ok ==> old(self)@.held < old(self)@.capacity,
            old(self)@.steps_to(final(self)@),
    {
        if self.closed {
            return Err(TryAcquireError::Closed);
        }
        if self.permits == 0 {
            return Err(TryAcquireError::NoPermits);
        }
        self.permits -= 1;
        proof {
            self.held@ = self.held@ + 1;
        }
        Ok(Permit::new())
    }

    /// Closes the semaphore: no permit is granted from now on. Slots that
    /// waiters hold and have not taken go back to the counter, and every
    /// queued waiter leaves the queue and has its handle invoked, so that it
    /// can find out. Closing a closed semaphore does nothing.
    ///
    /// The contract tells, in `resumed`, which waiters were chosen and in
    /// what order. That their handles were invoked it cannot tell.
    pub fn close(&mut self)
        requires
            old(self).wf(),
        ensures
            final(self).wf(),
            old(self)@.closes(final(self)@),
            old(self)@.steps_to(final(self)@),
    {
        if self.closed {
            return ;
        }
        self.closed = true;
        self.permits += self.granted.len();
        self.granted.clear();
        let ghost start = self.resumed@.len() as int;
        let ghost before = self@.waiting;
        loop
            invariant
                self.waiters.wf(),
                self.granted.well_stored(),
                self.closed,
                self@ == (SemaphoreState {
                    closed: true,
                    available: old(self)@.available + old(self)@.granted.len(),
                    waiting: self@.waiting,
                    granted: Set::empty(),
                    resumed: self@.resumed,
                    ..old(self)@
                }),
                old(self)@.inv(),
                before == old(self)@.waiting,
                start == old(self)@.resumed.len(),
                start <= self.resumed@.len(),
                self.resumed@.take(start) == old(self)@.resumed,
                self.resumed@.skip(start).no_duplicates(),
                forall|id: usize|
                    before.dom().contains(id) <==> (self.waiters@.dom().contains(id)
                        || self.resumed@.skip(start).contains(id)),
                forall|id: usize|
                    self.waiters@.dom().contains(id) ==> !self.resumed@.skip(start).contains(id)
                        && self.waiters@[id] == before[id],
                forall|i: int, id: usize|
                    0 <= i < self.resumed@.skip(start).len() && self.waiters@.dom().contains(id)
                        ==> before[self.resumed@.skip(start)[i]].prio >= before[id].prio,
                forall|i: int, j: int|
                    0 <= i < j < self.resumed@.skip(start).len() ==> before[self.resumed@.skip(
                        start,
                    )[i]].prio >= before[self.resumed@.skip(start)[j]].prio,
            ensures
                self.waiters@ == Map::<usize, WaiterEntry>::empty(),
            decreases self.waiters@.len(),
        {
            let ghost done = self.resumed@.skip(start);
            match self.waiters.pop() {
                Some(entry) => {
                    proof {
                        self.resumed@ = self.resumed@.push(entry.id);
                        let now = self.resumed@.skip(start);
                        assert(now =~= done.push(entry.id));
                        assert forall|id: usize| before.dom().contains(id) <==> (
                        self.waiters@.dom().contains(id) || now.contains(id)) by {
                            if id == entry.id {
                                assert(now[now.len() - 1] == id);
                            }
                            if done.contains(id) {
                                let k = choose|k: int| 0 <= k < done.len() && done[k] == id;
                                assert(now[k] == id);
                            }
                        }
                    }
                    entry.waker.wake();
                },
                None => {
                    break ;
                },
            }
        }
    }

    /// Number of permits that are free right now.
    pub fn available_permits(&self) -> (n: usize)
        ensures
            n == self@.available,
    {
        self.permits
    }

    /// Number of waiters in the queue.
    pub fn queued(&self) -> (n: usize)
        requires
            self.wf(),
        ensures
            n == self@.waiting.len(),
    {
        self.waiters.len()
    }

    /// Whether the semaphore has been closed.
    pub fn is_closed(&self) -> (closed: bool)
        ensures
            closed == self@.closed,
    {
        self.closed
    }

    /// Disposes of the slot of a released permit. While the semaphore is open
    /// and somebody waits, a most urgent waiter leaves the queue, is given
    /// the slot and has its handle invoked, and the counter stays as it is.
    /// Otherwise the counter goes up by one. A release that no live permit
    /// stands behind changes nothing, so that the slots never become more
    /// than the capacity.
    ///
    /// The contract tells, in `resumed`, which waiter was chosen. That its
    /// handle was invoked it cannot tell.
    pub fn dispatch_next(&mut self)
        requires
            old(self).wf(),
        ensures
            final(self).wf(),
            old(self)@.releases(final(self)@),
            old(self)@.steps_to(final(self)@),
    {
        if self.permits + self.granted.len() >= self.max_permit {
            return ;
        }
        proof {
            self.held@ = (self.held@ - 1) as nat;
        }
        self.pass_on();
    }

    /// Takes the waiter `id` out: out of the queue, if it waits there, without
    /// resuming it; or out of the slot that was handed to it, which then goes
    /// to the next waiter or to the counter. Does nothing if the waiter is
    /// gone already.
    pub fn remove_waiter(&mut self, id: usize)
        requires
            old(self).wf(),
        ensures
            final(self).wf(),
            old(self)@.drops_waiter(id, final(self)@),
            old(self)@.steps_to(final(self)@),
    {
        if self.granted.take(id) {
            self.pass_on();
        } else {
            self.waiters.remove(id);
            proof {
                assert(self.granted@ =~= old(self).granted@);
                if self.closed || self.permits > 0 {
                    assert(self.waiters@ =~= Map::<usize, WaiterEntry>::empty());
                }
            }
        }
        assert(old(self)@.drops_waiter(id, self@));
    }

    /// Whether every waiter id has been handed out, so that nobody can join
    /// the queue any more.
    pub fn ids_exhausted(&self) -> (exhausted: bool)
        ensures
            exhausted == (self@.next_id >= usize::MAX),
    {
        self.waiters.ids_exhausted()
    }

    /// Lets the waiter `id` take the slot that was handed to it, if one was,
    /// and says whether it did. The slot becomes a live permit.
    pub(crate) fn claim(&mut self, id: usize) -> (claimed: bool)
        requires
            old(self).wf(),
        ensures
            final(self).wf(),
            claimed == old(self)@.granted.contains(id),
            claimed ==> final(self)@ == old(self)@.claimed(id),
            claimed ==> old(self)@.held < old(self)@.capacity,
            !claimed ==> final(self)@ == old(self)@,
            old(self)@.steps_to(final(self)@),
    {
        if self.granted.take(id) {
            proof {
                self.held@ = self.held@ + 1;
            }
            true
        } else {
            assert(self.granted@ =~= old(self).granted@);
            false
        }
    }

    /// Puts a new waiter into the queue and returns its id.
    pub(crate) fn add_waiter(&mut self, prio: Priority, waker: Waker) -> (id: usize)
        requires
            old(self).wf(),
            !old(self)@.closed,
            old(self)@.available == 0,
            old(self)@.next_id < usize::MAX,
        ensures
            final(self).wf(),
            id == old(self)@.next_id,
            final(self)@ == old(self)@.enqueued(prio, waker),
            old(self)@.steps_to(final(self)@),
    {
        let id: usize = self.waiters.push(prio, waker);
        assert(self@ == old(self)@.enqueued(prio, waker));
        id
    }

    /// Replaces the handle of the waiter `id`, if it is still queued.
    pub(crate) fn update_waiter(&mut self, id: usize, waker: Waker)
        requires
            old(self).wf(),
        ensures
            final(self).wf(),
            final(self)@ == old(self)@.refreshed(id, waker),
            old(self)@.steps_to(final(self)@),
    {
        self.waiters.update_waker(id, waker);
        assert(self@ == old(self)@.refreshed(id, waker));
    }

    /// Sends a slot in passage on its way: to a most urgent waiter, where the
    /// semaphore is open and somebody waits, and to the counter where not.
    fn pass_on(&mut self)
        requires
            old(self).well_stored(),
            old(self)@.inv_with_spare(1),
        ensures
            final(self).wf(),
            old(self)@.hands_over() ==> final(self)@.resumed.len() > 0 && old(self)@.is_highest(
                final(self)@.resumed.last(),
            ) && final(self)@ == old(self)@.handed_to(final(self)@.resumed.last()),
            !old(self)@.hands_over() ==> final(self)@ == old(self)@.returned(),
    {
        if !self.closed {
            if let Some(entry) = self.waiters.pop() {
                self.granted.insert(entry.id);
                proof {
                    self.resumed@ = self.resumed@.push(entry.id);
                }
                entry.waker.wake();
                return ;
            }
        }
        proof {
            lemma_set_empty_equivalency_len(self.waiters@.dom());
            assert(self.waiters@ =~= Map::<usize, WaiterEntry>::empty());
        }
        self.permits += 1;
    }
}

} // verus!
