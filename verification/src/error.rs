//! Error types.

use vstd::prelude::*;

verus! {

/// Why an immediate acquire did not yield a permit.
#[derive(Debug, Clone, Copy)]
pub enum TryAcquireError {
    /// All permits are currently in use.
    NoPermits,
    /// The semaphore has been closed.
    Closed,
}

/// Why a suspended acquire ended without a permit.
#[derive(Debug)]
pub enum AcquireError {
    /// The semaphore was closed before the acquisition succeeded.
    Closed,
}

impl TryAcquireError {
    /// The text shown to a user for this error.
    pub open spec fn message_spec(self) -> Seq<char> {
        match self {
            TryAcquireError::NoPermits => "no permits available"@,
            TryAcquireError::Closed => "semaphore closed"@,
        }
    }

    /// Returns the text shown to a user for this error.
    pub fn message(&self) -> (text: &'static str)
        ensures
            text@ == self.message_spec(),
    {
        match self {
            TryAcquireError::NoPermits => "no permits available",
            TryAcquireError::Closed => "semaphore closed",
        }
    }
}

impl AcquireError {
    /// The text shown to a user for this error.
    pub open spec fn message_spec(self) -> Seq<char> {
        "semaphore closed"@
    }

    /// Returns the text shown to a user for this error.
    pub fn message(&self) -> (text: &'static str)
        ensures
            text@ == self.message_spec(),
    {
        "semaphore closed"
    }
}

} // verus!
