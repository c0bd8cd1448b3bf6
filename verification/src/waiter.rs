//! The acquire operation: one caller's attempt to get a permit.

use crate::error::{AcquireError, TryAcquireError};
use crate::permit::Permit;
use crate::queue::Priority;
use crate::semaphore::{PrioritySemaphore, SemaphoreState};
use core::task::Waker;
use vstd::prelude::*;

verus! {

/// Where an acquire operation stands.
#[derive(Debug, Clone, Copy)]
pub enum AcquireState {
    /// The operation has no entry in the wait queue.
    NotQueued,
    /// The operation waits in the queue under the given id.
    Queued(usize),
    /// The operation has ended: with a permit, with an error, or abandoned.
    Completed,
}

/// What a poll of an acquire operation yields.
pub enum AcquirePoll {
    /// The operation has ended with this outcome.
    Ready(Result<Permit, AcquireError>),
    /// No permit is free; the operation waits in the queue.
    Pending,
}

/// One attempt to acquire a permit, driven by repeated polls.
#[derive(Debug)]
pub struct AcquireFuture {
    prio: Priority,
    state: AcquireState,
}

impl AcquireFuture {
    /// The priority the operation asks with.
    pub closed spec fn priority(&self) -> Priority {
        self.prio
    }

    /// Where the operation stands.
    pub closed spec fn state(&self) -> AcquireState {
        self.state
    }

    /// The operation has not been polled yet, or not to any effect.
    pub open spec fn is_fresh(&self) -> bool {
        self.state() is NotQueued
    }

    /// The operation has been resumed with a slot of `sem` handed to it, and
    /// has not taken the slot yet.
    pub open spec fn holds_slot(&self, sem: SemaphoreState) -> bool {
        self.state() matches AcquireState::Queued(id) && sem.granted.contains(id)
    }

    pub(crate) fn new(prio: Priority) -> (op: Self)
        ensures
            op.priority() == prio,
            op.is_fresh(),
    {
        Self { prio, state: AcquireState::NotQueued }
    }

    /// Whether the operation has ended.
    pub fn is_completed(&self) -> (done: bool)
        ensures
            done == (self.state() is Completed),
    {
        match self.state {
            AcquireState::Completed => true,
            _ => false,
        }
    }

    /// The id under which the operation waits in the queue, if it does.
    pub fn wait_id(&self) -> (id: Option<usize>)
        ensures
            id == match self.state() {
                AcquireState::Queued(id) => Some(id),
                _ => None,
            },
    {
        match self.state {
            AcquireState::Queued(id) => Some(id),
            _ => None,
        }
    }

    /// Makes one attempt to get a permit.
    ///
    /// An operation that a release has handed its slot to takes that slot as
    /// its permit and ends; the counter is not touched. Otherwise, on a closed
    /// semaphore the operation ends with `Closed`, and where a permit is free
    /// the operation takes it and ends; in both cases it first gives up its
    /// place in the queue, if it has one. Otherwise it stays suspended: on its
    /// first such poll it joins the queue with its priority and the given
    /// handle; on later ones it replaces the handle stored for it.
    pub fn poll(&mut self, sem: &mut PrioritySemaphore, waker: &Waker) -> (res: AcquirePoll)
        requires
            old(sem).wf(),
            !(old(self).state() is Completed),
            old(self).state() is NotQueued && !old(sem)@.closed && old(sem)@.available == 0
                ==> old(sem)@.next_id < usize::MAX,
        ensures
            final(sem).wf(),
            final(self).priority() == old(self).priority(),
            old(sem)@.steps_to(final(sem)@),
            res matches AcquirePoll::Ready(Ok(_)) ==> old(sem)@.held < old(sem)@.capacity,
            old(self).holds_slot(old(sem)@) ==> {
                &&& res matches AcquirePoll::Ready(Ok(_))
                &&& final(self).state() is Completed
                &&& old(self).state() matches AcquireState::Queued(id) && final(sem)@ == old(
                    sem,
                )@.claimed(id)
            },
            !old(self).holds_slot(old(sem)@) && old(sem)@.closed ==> {
                &&& res == AcquirePoll::Ready(Err(AcquireError::Closed))
                &&& final(self).state() is Completed
                &&& final(sem)@ == old(sem)@
            },
            !old(self).holds_slot(old(sem)@) && old(sem)@.can_acquire() ==> {
                &&& res matches AcquirePoll::Ready(Ok(_))
                &&& final(self).state() is Completed
                &&& final(sem)@ == old(sem)@.acquired()
            },
            !old(self).holds_slot(old(sem)@) && !old(sem)@.closed && old(sem)@.available == 0 ==> {
                &&& res is Pending
                &&& match old(self).state() {
                    AcquireState::Queued(id) => {
                        &&& final(self).state() == old(self).state()
                        &&& final(sem)@ == old(sem)@.refreshed(id, *waker)
                    },
                    _ => {
                        &&& final(self).state() == AcquireState::Queued(
                            old(sem)@.next_id as usize,
                        )
                        &&& final(sem)@ == old(sem)@.enqueued(old(self).priority(), *waker)
                    },
                }
            },
    {
        if let AcquireState::Queued(id) = self.state {
            if sem.claim(id) {
                self.state = AcquireState::Completed;
                return AcquirePoll::Ready(Ok(Permit::new()));
            }
        }
        let ghost start = sem@;
        loop
            invariant
                sem.wf(),
                start == old(sem)@,
                !old(self).holds_slot(start),
                self.state matches AcquireState::Queued(id) ==> !sem@.granted.contains(id),
                self.prio == old(self).prio,
                !(old(self).state is Completed),
                ({
                    &&& self.state == old(self).state
                    &&& sem@ == start
                    &&& (self.state is NotQueued && !start.closed && start.available == 0
                        ==> start.next_id < usize::MAX)
                }) || ({
                    &&& old(self).state is NotQueued
                    &&& !start.closed
                    &&& start.available == 0
                    &&& start.next_id < usize::MAX
                    &&& self.state == AcquireState::Queued(start.next_id as usize)
                    &&& sem@ == start.enqueued(self.prio, *waker)
                }),
            decreases
                    (if self.state is Queued {
                        0int
                    } else {
                        1int
                    }),
        {
            match sem.try_acquire(self.prio) {
                Ok(permit) => {
                    self.leave_queue(sem);
                    assert(sem@.waiting =~= start.acquired().waiting);
                    return AcquirePoll::Ready(Ok(permit));
                },
                Err(TryAcquireError::Closed) => {
                    self.leave_queue(sem);
                    return AcquirePoll::Ready(Err(AcquireError::Closed));
                },
                Err(TryAcquireError::NoPermits) => {},
            }
            if let AcquireState::Queued(id) = self.state {
                sem.update_waiter(id, waker.clone());
                proof {
                    if self.state != old(self).state {
                        // The handle stored a moment ago is stored once more.
                        assert(sem@.waiting =~= start.enqueued(self.prio, *waker).waiting);
                    }
                }
                return AcquirePoll::Pending;
            }
            let id: usize = sem.add_waiter(self.prio, waker.clone());
            self.state = AcquireState::Queued(id);
        }
    }

    /// Abandons the operation. If it waits in the queue, its entry is removed,
    /// so that the queue keeps no handle of a caller that is gone, and the
    /// queue is one waiter shorter. If a release has handed it a slot that it
    /// has not taken, the slot goes to the next waiter or to the counter. No
    /// permit is granted to the operation.
    pub fn cancel(&mut self, sem: &mut PrioritySemaphore)
        requires
            old(sem).wf(),
        ensures
            final(sem).wf(),
            final(self).priority() == old(self).priority(),
            final(self).state() is Completed,
            match old(self).state() {
                AcquireState::Queued(id) => old(sem)@.drops_waiter(id, final(sem)@),
                _ => final(sem)@ == old(sem)@,
            },
            old(sem)@.steps_to(final(sem)@),
            final(sem)@.held == old(sem)@.held,
            old(self).state() matches AcquireState::Queued(id) && old(sem)@.waiting.dom().contains(
                id,
            ) ==> final(sem)@.waiting.len() == old(sem)@.waiting.len() - 1 && final(sem)@.available
                == old(sem)@.available,
    {
        self.leave_queue(sem);
    }

    /// Ends the operation, taking its entry out of the queue if it has one.
    fn leave_queue(&mut self, sem: &mut PrioritySemaphore)
        requires
            old(sem).wf(),
        ensures
            final(sem).wf(),
            final(self).prio == old(self).prio,
            final(self).state is Completed,
            match old(self).state {
                AcquireState::Queued(id) => old(sem)@.drops_waiter(id, final(sem)@),
                _ => final(sem)@ == old(sem)@,
            },
            old(sem)@.steps_to(final(sem)@),
    {
        if let AcquireState::Queued(id) = self.state {
            sem.remove_waiter(id);
        }
        self.state = AcquireState::Completed;
    }
}

} // verus!
