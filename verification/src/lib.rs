//! A counting semaphore whose waiters carry a priority: when a permit is
//! released while callers wait, the most urgent waiter is resumed first.
//!
//! The semaphore is a state machine that its owner drives through `&mut`:
//! the owner decides how the state is shared and how a suspended caller is
//! parked; the rules of granting, queueing, resuming and closing are here.

pub mod error;
mod grants;
mod heap;
pub mod laws;
pub mod permit;
pub mod queue;
pub mod semaphore;
pub mod std_specs;
pub mod waiter;

pub use crate::error::{AcquireError, TryAcquireError};
pub use crate::permit::Permit;
pub use crate::queue::{Priority, WaitQueue, WaiterEntry};
pub use crate::semaphore::{PrioritySemaphore, SemaphoreState};
pub use crate::waiter::{AcquireFuture, AcquirePoll, AcquireState};
