//! The token that stands for one granted unit of concurrency.

use crate::semaphore::PrioritySemaphore;
use vstd::prelude::*;

verus! {

/// Proof that its owner holds one permit of a semaphore. It cannot be copied;
/// releasing it consumes it, so it is released at most once.
pub struct Permit {
    _sealed: (),
}

impl Permit {
    pub(crate) fn new() -> Self {
        Self { _sealed: () }
    }

    /// Gives the permit back to the semaphore, which hands the slot to a most
    /// urgent waiter if there is one and returns it to the counter if not.
    pub fn release(self, sem: &mut PrioritySemaphore)
        requires
            old(sem).wf(),
        ensures
            final(sem).wf(),
            old(sem)@.releases(final(sem)@),
            old(sem)@.steps_to(final(sem)@),
    {
        sem.dispatch_next();
    }
}

} // verus!
