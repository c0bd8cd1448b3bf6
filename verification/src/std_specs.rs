//! Contracts assumed, without proof, for the standard-library items this crate
//! calls and for which `vstd` provides none.

use core::task::Waker;
use vstd::prelude::*;

verus! {

/// `core::task::Waker`, the handle by which a suspended task is made runnable
/// again. Nothing inside it is visible to the proofs.
#[verifier::external_type_specification]
#[verifier::external_body]
pub struct ExWaker(Waker);

/// `Waker::wake` consumes the handle and notifies the scheduler. It returns
/// nothing and nothing is assumed about what the scheduler then does.
pub assume_specification[ Waker::wake ](waker: Waker)
;

/// `Waker::clone` returns a duplicate of the handle: one that wakes the same
/// task as the handle it was made from. A handle stands for nothing but the
/// task it wakes, so the duplicate is taken to equal that handle.
pub assume_specification[ <Waker as Clone>::clone ](waker: &Waker) -> (copy: Waker)
    ensures
        copy == *waker,
;

/// `<[T]>::swap` exchanges the elements at two positions, which must both be in
/// bounds, and leaves every other element where it was.
pub assume_specification<T>[ <[T]>::swap ](slice: &mut [T], a: usize, b: usize)
    requires
        a < old(slice)@.len(),
        b < old(slice)@.len(),
    ensures
        final(slice)@ == old(slice)@.update(a as int, old(slice)@[b as int]).update(
            b as int,
            old(slice)@[a as int],
        ),
;

} // verus!
