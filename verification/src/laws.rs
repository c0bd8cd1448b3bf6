//! What holds of the semaphore in general, proved from its model.

use crate::queue::{Priority, WaiterEntry};
use crate::semaphore::SemaphoreState;
use core::task::Waker;
use vstd::prelude::*;
use vstd::set_lib::lemma_set_empty_equivalency_len;

verus! {

/// A slot in passage finds its place: handed to a most urgent waiter or
/// returned to the counter, it leaves a state that satisfies the invariant.
pub proof fn lemma_slot_is_placed(s: SemaphoreState, id: usize)
    requires
        s.inv_with_spare(1),
    ensures
        s.hands_over() && s.is_highest(id) ==> s.handed_to(id).inv(),
        !s.hands_over() ==> s.returned().inv(),
{
    if !s.hands_over() {
        lemma_set_empty_equivalency_len(s.waiting.dom());
        assert(s.closed || s.waiting =~= Map::<usize, WaiterEntry>::empty());
    }
}

/// Every transition of the semaphore keeps its invariant.
pub proof fn lemma_invariant_kept(
    s: SemaphoreState,
    capacity: nat,
    id: usize,
    prio: Priority,
    waker: Waker,
    post: SemaphoreState,
)
    requires
        s.inv(),
    ensures
        SemaphoreState::initial(capacity).inv(),
        s.can_acquire() ==> s.acquired().inv(),
        s.granted.contains(id) ==> s.claimed(id).inv(),
        s.releases(post) ==> post.inv(),
        s.drops_waiter(id, post) ==> post.inv(),
        !s.closed && s.available == 0 && s.next_id < usize::MAX ==> s.enqueued(prio, waker).inv(),
        s.refreshed(id, waker).inv(),
        s.closes(post) ==> post.inv(),
{
    let e = s.enqueued(prio, waker);
    assert forall|k: usize| #[trigger] e.waiting.dom().contains(k) implies k < e.next_id
        && e.waiting[k].id == k by {
        if k != s.next_id as usize {
            assert(s.waiting.dom().contains(k));
        }
    }
    if s.closed || s.available > 0 {
        assert(s.removed(id).waiting =~= s.waiting);
    }
    if s.releases(post) && s.held > 0 {
        lemma_slot_is_placed(s.released(), post.resumed.last());
    }
    if s.drops_waiter(id, post) && s.granted.contains(id) {
        lemma_slot_is_placed(s.revoked(id), post.resumed.last());
    }
}

/// Whatever single step the semaphore takes, the invariant and the capacity
/// are kept.
pub proof fn lemma_step_is_sound(pre: SemaphoreState, post: SemaphoreState)
    requires
        pre.inv(),
        pre.steps_to(post),
    ensures
        post.inv(),
        post.capacity == pre.capacity,
{
    if exists|id: usize| pre.granted.contains(id) && post == #[trigger] pre.claimed(id) {
        let id = choose|id: usize| pre.granted.contains(id) && post == #[trigger] pre.claimed(id);
        lemma_invariant_kept(pre, 0, id, 0, arbitrary(), post);
    } else if exists|id: usize| #[trigger] pre.drops_waiter(id, post) {
        let id = choose|id: usize| #[trigger] pre.drops_waiter(id, post);
        lemma_invariant_kept(pre, 0, id, 0, arbitrary(), post);
    } else if !pre.closed && pre.available == 0 && pre.next_id < usize::MAX && exists|
        prio: Priority,
        waker: Waker,
    | post == #[trigger] pre.enqueued(prio, waker) {
        let (prio, waker) = choose|prio: Priority, waker: Waker|
            post == #[trigger] pre.enqueued(prio, waker);
        lemma_invariant_kept(pre, 0, 0, prio, waker, post);
    } else if exists|id: usize, waker: Waker| post == #[trigger] pre.refreshed(id, waker) {
        let (id, waker) = choose|id: usize, waker: Waker|
            post == #[trigger] pre.refreshed(id, waker);
        lemma_invariant_kept(pre, 0, id, 0, waker, post);
    } else {
        lemma_invariant_kept(pre, 0, 0, 0, arbitrary(), post);
    }
}

/// A history of a semaphore: the states it went through, in order, from a
/// fresh semaphore on.
pub open spec fn is_history(states: Seq<SemaphoreState>) -> bool {
    &&& states.len() > 0
    &&& states[0] == SemaphoreState::initial(states[0].capacity)
    &&& forall|i: int| 0 <= i < states.len() - 1 ==> #[trigger] states[i].steps_to(states[i + 1])
}

/// Every state that a semaphore reaches satisfies the invariant, and the
/// capacity never changes.
pub proof fn lemma_reachable_states_are_sound(states: Seq<SemaphoreState>, k: int)
    requires
        is_history(states),
        0 <= k < states.len(),
    ensures
        states[k].inv(),
        states[k].capacity == states[0].capacity,
    decreases k,
{
    if k > 0 {
        lemma_reachable_states_are_sound(states, k - 1);
        assert(states[k - 1].steps_to(states[(k - 1) + 1]));
        lemma_step_is_sound(states[k - 1], states[k]);
    }
}

/// Capacity invariant: the free permits, the live permits and the slots that
/// resumed waiters hold and have not taken yet are together exactly the
/// capacity. Where no waiter holds such a slot, the free and the live permits
/// alone are the capacity.
pub proof fn lemma_capacity_invariant(s: SemaphoreState)
    requires
        s.inv(),
    ensures
        s.available + s.held + s.granted.len() == s.capacity,
        s.granted == Set::<usize>::empty() ==> s.available + s.held == s.capacity,
{
}

/// Capacity invariant over histories: in every state that a semaphore
/// reaches, the free permits, the live permits and the slots handed to
/// waiters are together the capacity it was created with.
pub proof fn lemma_capacity_invariant_reached(states: Seq<SemaphoreState>, k: int)
    requires
        is_history(states),
        0 <= k < states.len(),
    ensures
        states[k].available + states[k].held + states[k].granted.len() == states[0].capacity,
        states[k].granted == Set::<usize>::empty() ==> states[k].available + states[k].held
            == states[0].capacity,
{
    lemma_reachable_states_are_sound(states, k);
}

/// Peak concurrency: never more permits are live than the capacity allows,
/// and a permit is granted, from the counter or from a handed slot, only
/// where fewer are live than the capacity.
pub proof fn lemma_peak_concurrency(s: SemaphoreState, id: usize)
    requires
        s.inv(),
    ensures
        s.held <= s.capacity,
        s.can_acquire() ==> s.held < s.capacity && s.acquired().held <= s.capacity,
        s.granted.contains(id) ==> s.held < s.capacity && s.claimed(id).held <= s.capacity,
{
    if s.granted.contains(id) {
        lemma_set_empty_equivalency_len(s.granted);
    }
}

/// Peak concurrency over histories: in no state that a semaphore reaches are
/// more permits live than the capacity it was created with.
pub proof fn lemma_peak_concurrency_reached(states: Seq<SemaphoreState>, k: int)
    requires
        is_history(states),
        0 <= k < states.len(),
    ensures
        states[k].held <= states[0].capacity,
{
    lemma_reachable_states_are_sound(states, k);
}

/// Priority precedence: the waiter that a release resumes is at least as
/// urgent as every other waiter in the queue, so no waiter is passed over for
/// a less urgent one.
pub proof fn lemma_most_urgent_first(s: SemaphoreState, post: SemaphoreState, other: usize)
    requires
        s.inv(),
        s.held > 0,
        s.hands_over(),
        s.releases(post),
        s.waiting.dom().contains(other),
    ensures
        s.waiting[other].prio <= s.waiting[post.resumed.last()].prio,
        post.granted.contains(post.resumed.last()),
        !post.waiting.dom().contains(post.resumed.last()),
        other != post.resumed.last() ==> post.waiting.dom().contains(other),
{
}

/// Hand-over: the waiter that a release resumes holds the released slot.
/// When it takes the slot, it has its permit, and the counter has not moved:
/// as many permits are free and as many are live as before the release.
pub proof fn lemma_handed_slot_is_taken(s: SemaphoreState, post: SemaphoreState)
    requires
        s.inv(),
        s.held > 0,
        s.hands_over(),
        s.releases(post),
    ensures
        post.granted.contains(post.resumed.last()),
        post.claimed(post.resumed.last()).inv(),
        post.claimed(post.resumed.last()).available == s.available,
        post.claimed(post.resumed.last()).held == s.held,
        post.claimed(post.resumed.last()).granted == s.granted,
        s.available == 0,
{
    let id = post.resumed.last();
    lemma_invariant_kept(s, 0, 0, 0, arbitrary(), post);
    lemma_invariant_kept(post, 0, id, 0, arbitrary(), post);
    lemma_set_empty_equivalency_len(s.waiting.dom());
    assert(post.claimed(id).granted =~= s.granted);
}

/// Cancellation: taking a queued waiter out makes the queue exactly one
/// shorter, resumes nobody, and neither grants nor returns a permit.
pub proof fn lemma_cancel_frees_one_place(s: SemaphoreState, id: usize, post: SemaphoreState)
    requires
        s.inv(),
        s.waiting.dom().contains(id),
        s.drops_waiter(id, post),
    ensures
        post.waiting.len() == s.waiting.len() - 1,
        !post.waiting.dom().contains(id),
        post.available == s.available,
        post.held == s.held,
        post.granted == s.granted,
        post.resumed == s.resumed,
{
}

/// Cancellation leaks nothing: when a waiter gives up a slot that was handed
/// to it, the slot goes to another waiter or to the counter, no permit
/// becomes live, and the waiter holds nothing afterwards.
pub proof fn lemma_cancel_passes_the_slot_on(s: SemaphoreState, id: usize, post: SemaphoreState)
    requires
        s.inv(),
        s.granted.contains(id),
        s.drops_waiter(id, post),
    ensures
        post.inv(),
        !post.granted.contains(id),
        post.held == s.held,
        post.available + post.granted.len() == s.available + s.granted.len(),
        !s.hands_over() ==> post.available == s.available + 1 && post.waiting == s.waiting,
        s.hands_over() ==> post.available == s.available && post.granted.contains(
            post.resumed.last(),
        ) && s.is_highest(post.resumed.last()),
{
    lemma_invariant_kept(s, 0, id, 0, arbitrary(), post);
}

/// A listing of the queue in drain order is as long as the queue.
pub proof fn lemma_drain_order_len(s: SemaphoreState, order: Seq<usize>)
    requires
        s.inv(),
        s.drain_order(order),
    ensures
        order.len() == s.waiting.len(),
{
    order.unique_seq_to_set();
    assert(order.to_set() =~= s.waiting.dom());
}

/// Close semantics: closing an open semaphore chooses every queued waiter
/// for resumption, each once and the more urgent first, and leaves the queue
/// empty; the slots that waiters held and had not taken are free again, so
/// that the free and the live permits are the capacity; after a close,
/// whether the first or a later one, no permit can be granted and no release
/// hands a slot to a waiter.
pub proof fn lemma_close_semantics(pre: SemaphoreState, post: SemaphoreState)
    requires
        pre.inv(),
        pre.closes(post),
    ensures
        post.inv(),
        post.closed,
        post.waiting.len() == 0,
        post.granted.len() == 0,
        !post.can_acquire(),
        !post.hands_over(),
        post.available + post.held == post.capacity,
        post.held == pre.held,
        !pre.closed ==> post.resumed.len() == pre.resumed.len() + pre.waiting.len(),
        !pre.closed ==> forall|id: usize| #[trigger]
            pre.waiting.dom().contains(id) ==> post.resumed.contains(id),
{
    if !pre.closed {
        let start = pre.resumed.len() as int;
        let order = post.resumed.skip(start);
        lemma_drain_order_len(pre, order);
        assert forall|id: usize| #[trigger] pre.waiting.dom().contains(id) implies post.resumed.contains(
            id,
        ) by {
            assert(order.contains(id));
            let k = choose|k: int| 0 <= k < order.len() && order[k] == id;
            assert(post.resumed[start + k] == id);
        }
    }
}

/// While somebody waits, the semaphore is open and no permit is free.
pub proof fn lemma_no_idle_permit(s: SemaphoreState, id: usize)
    requires
        s.inv(),
        s.waiting.dom().contains(id),
    ensures
        !s.closed,
        s.available == 0,
        s.hands_over(),
{
    lemma_set_empty_equivalency_len(s.waiting.dom());
}

/// Once closed, always closed: whatever step a closed semaphore takes, it
/// stays closed, its queue stays empty, nobody is resumed or holds a slot,
/// and no permit can be granted.
pub proof fn lemma_closed_for_good(pre: SemaphoreState, post: SemaphoreState)
    requires
        pre.inv(),
        pre.closed,
        pre.steps_to(post),
    ensures
        post.closed,
        post.waiting == pre.waiting,
        post.granted == pre.granted,
        post.resumed == pre.resumed,
        post.held <= pre.held,
        !post.can_acquire(),
        !post.hands_over(),
{
    assert forall|id: usize| pre.removed(id).waiting =~= pre.waiting by {}
}

/// Idempotent close: a second close changes nothing.
pub proof fn lemma_close_idempotent(s: SemaphoreState, once: SemaphoreState, twice: SemaphoreState)
    requires
        s.closes(once),
        once.closes(twice),
    ensures
        twice == once,
{
}

} // verus!
