//! Priority-ordered wait queue.

use crate::heap::{
    above, bridged, distinct_ids, entries, has_id, heap_but_child, heap_but_parent, ids_of,
    is_heap, lemma_above_parent, lemma_entries_at, lemma_entries_dropped, lemma_entries_keyed, lemma_entries_len,
    lemma_entries_pushed, lemma_entries_swapped, lemma_entries_updated, lemma_heap_dropped,
    lemma_lifted, lemma_lowered, lemma_replaced, lemma_root_is_highest, ordered_at, parent,
    swapped,
};
use core::task::Waker;
use vstd::prelude::*;

verus! {

/// Priority of a waiter. Larger numbers are more urgent.
pub type Priority = i32;

/// One suspended waiter.
#[derive(Debug)]
pub struct WaiterEntry {
    /// How urgent the waiter is.
    pub prio: Priority,
    /// The handle that resumes the waiter.
    pub waker: Waker,
    /// The identity the queue gave the waiter when it was enqueued.
    pub id: usize,
}

/// Heap-based queue of suspended waiters, most urgent first.
///
/// The queue orders waiters by priority alone. Among waiters of the same
/// priority it promises no order: which of them leaves first depends on how
/// the heap stands, not on who came first.
#[derive(Debug)]
pub struct WaitQueue {
    heap: Vec<WaiterEntry>,
    next_id: usize,
}

impl View for WaitQueue {
    type V = Map<usize, WaiterEntry>;

    /// The queued waiters, keyed by id.
    closed spec fn view(&self) -> Map<usize, WaiterEntry> {
        entries(self.heap@)
    }
}

impl WaitQueue {
    /// The id that the next `push` will hand out.
    pub closed spec fn next_id(&self) -> nat {
        self.next_id as nat
    }

    /// The ids of the queued waiters in the order of the slots that store
    /// them. A waiter's place in this sequence is its place in the heap.
    pub closed spec fn slot_order(&self) -> Seq<usize> {
        ids_of(self.heap@)
    }

    /// The storage is a max-heap by priority in which no id occurs twice.
    pub closed spec fn well_stored(&self) -> bool {
        &&& is_heap(self.heap@)
        &&& distinct_ids(self.heap@)
    }

    /// The queue's invariant: sound storage, finitely many waiters, each filed
    /// under its own id, and every id handed out before `next_id`.
    pub open spec fn wf(&self) -> bool {
        &&& self.well_stored()
        &&& self@.dom().finite()
        &&& forall|id: usize| #[trigger]
            self@.dom().contains(id) ==> id < self.next_id() && self@[id].id == id
    }

    /// The slot order lists every queued waiter exactly once.
    pub proof fn lemma_slot_order(&self)
        requires
            self.wf(),
        ensures
            self.slot_order().no_duplicates(),
            self.slot_order().len() == self@.len(),
            forall|id: usize| self@.dom().contains(id) <==> self.slot_order().contains(id),
    {
        let s = self.heap@;
        let order = ids_of(s);
        lemma_entries_len(s);
        assert forall|id: usize| entries(s).dom().contains(id) <==> order.contains(id) by {
            if has_id(s, id) {
                let i = choose|i: int| 0 <= i < s.len() && (#[trigger] s[i]).id == id;
                assert(order[i] == id);
            }
            if order.contains(id) {
                let i = choose|i: int| 0 <= i < order.len() && order[i] == id;
                assert(s[i].id == id);
            }
        }
    }

    /// Creates an empty queue.
    pub fn new() -> (queue: Self)
        ensures
            queue.wf(),
            queue@ == Map::<usize, WaiterEntry>::empty(),
            queue.next_id() == 0,
    {
        let queue = Self { heap: Vec::new(), next_id: 0 };
        assert(queue@ =~= Map::<usize, WaiterEntry>::empty());
        queue
    }

    /// Inserts a new waiter and returns the id the queue gave it.
    pub fn push(&mut self, prio: Priority, waker: Waker) -> (id: usize)
        requires
            old(self).wf(),
            old(self).next_id() < usize::MAX,
        ensures
            final(self).wf(),
            id == old(self).next_id(),
            final(self).next_id() == old(self).next_id() + 1,
            final(self)@ == old(self)@.insert(id, (WaiterEntry { prio, waker, id })),
    {
        let id: usize = self.next_id;
        self.next_id += 1;
        let ghost before = self.heap@;
        let ghost entry = WaiterEntry { prio, waker, id };
        self.heap.push(WaiterEntry { prio, waker, id });
        proof {
            assert(!has_id(before, id)) by {
                if has_id(before, id) {
                    assert(entries(before).dom().contains(id));
                }
            }
            lemma_entries_pushed(before, entry);
            assert forall|i: int| 0 < i < self.heap@.len() && i != self.heap@.len()
                - 1 implies #[trigger] ordered_at(self.heap@, i) by {
                assert(ordered_at(before, i));
            }
        }
        self.sift_up(self.heap.len() - 1);
        id
    }

    /// Removes and returns a waiter of the highest priority, if there is any waiter.
    pub fn pop(&mut self) -> (top: Option<WaiterEntry>)
        requires
            old(self).wf(),
        ensures
            final(self).wf(),
            final(self).next_id() == old(self).next_id(),
            old(self)@.len() == 0 ==> top is None && final(self)@ == old(self)@,
            old(self)@.len() > 0 ==> top is Some,
            top matches Some(entry) ==> {
                &&& old(self)@.contains_pair(entry.id, entry)
                &&& forall|id: usize| #[trigger]
                    old(self)@.dom().contains(id) ==> old(self)@[id].prio <= entry.prio
                &&& final(self)@ == old(self)@.remove(entry.id)
            },
    {
        proof {
            lemma_entries_len(self.heap@);
        }
        if self.heap.is_empty() {
            return None;
        }
        let ghost before = self.heap@;
        proof {
            lemma_entries_keyed(before);
            lemma_entries_at(before, 0);
            assert forall|id: usize| #[trigger] entries(before).dom().contains(id) implies entries(
                before,
            )[id].prio <= before[0].prio by {
                let i = choose|i: int| 0 <= i < before.len() && before[i] == entries(before)[id];
                lemma_root_is_highest(before, i);
            }
            lemma_entries_swapped(before, 0, before.len() - 1);
            lemma_entries_dropped(swapped(before, 0, before.len() - 1));
            lemma_entries_dropped(before);
            lemma_heap_dropped(before);
        }
        let mut last = self.heap.pop().unwrap();
        if self.heap.is_empty() {
            return Some(last);
        }
        proof {
            lemma_replaced(before.drop_last(), 0, last);
            assert(before.drop_last().update(0, last) =~= swapped(
                before,
                0,
                before.len() - 1,
            ).drop_last());
        }
        core::mem::swap(&mut self.heap[0], &mut last);
        self.sift_down(0);
        Some(last)
    }

    /// Removes the waiter `id` from the queue, if it is still there.
    pub fn remove(&mut self, id: usize)
        requires
            old(self).wf(),
        ensures
            final(self).wf(),
            final(self).next_id() == old(self).next_id(),
            final(self)@ == old(self)@.remove(id),
    {
        if let Some(pos) = self.position(id) {
            let ghost before = self.heap@;
            proof {
                lemma_entries_at(before, pos as int);
                lemma_entries_swapped(before, pos as int, before.len() - 1);
                lemma_entries_dropped(swapped(before, pos as int, before.len() - 1));
                lemma_entries_dropped(before);
                lemma_heap_dropped(before);
            }
            let last = self.heap.pop().unwrap();
            if pos == self.heap.len() {
                return ;
            }
            proof {
                lemma_replaced(before.drop_last(), pos as int, last);
                assert(before.drop_last().update(pos as int, last) =~= swapped(
                    before,
                    pos as int,
                    before.len() - 1,
                ).drop_last());
            }
            self.heap[pos] = last;
            if pos > 0 && self.heap[pos].prio > self.heap[(pos - 1) / 2].prio {
                self.sift_up(pos);
            } else {
                self.sift_down(pos);
            }
        }
    }

    /// Replaces the stored handle of the waiter `id`, if it is still queued.
    /// No waiter changes its place in the heap.
    pub fn update_waker(&mut self, id: usize, waker: Waker)
        requires
            old(self).wf(),
        ensures
            final(self).wf(),
            final(self).next_id() == old(self).next_id(),
            final(self).slot_order() == old(self).slot_order(),
            final(self)@ == if old(self)@.dom().contains(id) {
                old(self)@.insert(id, (WaiterEntry { waker, ..old(self)@[id] }))
            } else {
                old(self)@
            },
    {
        if let Some(pos) = self.position(id) {
            let ghost before = self.heap@;
            proof {
                lemma_entries_at(before, pos as int);
                lemma_entries_updated(
                    before,
                    pos as int,
                    WaiterEntry { waker, ..before[pos as int] },
                );
            }
            self.heap[pos].waker = waker;
            proof {
                assert(self.heap@ =~= before.update(
                    pos as int,
                    WaiterEntry { waker, ..before[pos as int] },
                ));
                assert(ids_of(self.heap@) =~= ids_of(before));
                assert forall|i: int| 0 < i < self.heap@.len() implies #[trigger] ordered_at(
                    self.heap@,
                    i,
                ) by {
                    assert(ordered_at(before, i));
                }
            }
        }
    }

    /// Whether every id has been handed out, so that `push` can give no new one.
    pub fn ids_exhausted(&self) -> (exhausted: bool)
        ensures
            exhausted == (self.next_id() >= usize::MAX),
    {
        self.next_id == usize::MAX
    }

    /// Current number of waiters in the queue.
    pub fn len(&self) -> (n: usize)
        requires
            self.wf(),
        ensures
            n == self@.len(),
    {
        proof {
            lemma_entries_len(self.heap@);
        }
        self.heap.len()
    }

    /// Finds the slot that holds the waiter `id`.
    fn position(&self, id: usize) -> (found: Option<usize>)
        ensures
            found matches Some(pos) ==> pos < self.heap.len() && self.heap@[pos as int].id == id,
            found is None ==> !has_id(self.heap@, id),
    {
        let mut pos: usize = 0;
        while pos < self.heap.len()
            invariant
                pos <= self.heap.len(),
                forall|i: int| 0 <= i < pos ==> (#[trigger] self.heap@[i]).id != id,
            decreases self.heap.len() - pos,
        {
            if self.heap[pos].id == id {
                return Some(pos);
            }
            pos += 1;
        }
        None
    }

    #[inline]
    fn sift_up(&mut self, idx: usize)
        requires
            idx < old(self).heap.len(),
            heap_but_child(old(self).heap@, idx as int),
            bridged(old(self).heap@, idx as int),
            distinct_ids(old(self).heap@),
        ensures
            is_heap(final(self).heap@),
            distinct_ids(final(self).heap@),
            entries(final(self).heap@) == entries(old(self).heap@),
            final(self).heap.len() == old(self).heap.len(),
            final(self).next_id == old(self).next_id,
            forall|k: int|
                0 <= k < old(self).heap.len() && !above(k, idx as int) ==> final(self).heap@[k]
                    == old(self).heap@[k],
    {
        let ghost start = idx as int;
        let mut idx: usize = idx;
        while idx > 0
            invariant
                idx < self.heap.len(),
                above(idx as int, start),
                forall|k: int|
                    0 <= k < self.heap.len() && !above(k, start) ==> self.heap@[k] == old(
                        self,
                    ).heap@[k],
                heap_but_child(self.heap@, idx as int),
                bridged(self.heap@, idx as int),
                distinct_ids(self.heap@),
                entries(self.heap@) == entries(old(self).heap@),
                self.heap.len() == old(self).heap.len(),
                self.next_id == old(self).next_id,
            ensures
                is_heap(self.heap@),
            decreases idx,
        {
            let up: usize = (idx - 1) / 2;
            if self.heap[up].prio >= self.heap[idx].prio {
                break;
            }
            proof {
                lemma_lifted(self.heap@, idx as int);
                lemma_entries_swapped(self.heap@, up as int, idx as int);
                lemma_above_parent(idx as int, start);
            }
            self.heap.swap(up, idx);
            idx = up;
        }
    }

    #[inline]
    fn sift_down(&mut self, idx: usize)
        requires
            idx < old(self).heap.len(),
            heap_but_parent(old(self).heap@, idx as int),
            bridged(old(self).heap@, idx as int),
            distinct_ids(old(self).heap@),
        ensures
            is_heap(final(self).heap@),
            distinct_ids(final(self).heap@),
            entries(final(self).heap@) == entries(old(self).heap@),
            final(self).heap.len() == old(self).heap.len(),
            final(self).next_id == old(self).next_id,
            forall|k: int|
                0 <= k < old(self).heap.len() && !above(idx as int, k) ==> final(self).heap@[k]
                    == old(self).heap@[k],
    {
        let ghost start = idx as int;
        let mut idx: usize = idx;
        let len: usize = self.heap.len();
        loop
            invariant
                idx < len,
                above(start, idx as int),
                forall|k: int|
                    0 <= k < self.heap.len() && !above(start, k) ==> self.heap@[k] == old(
                        self,
                    ).heap@[k],
                len == self.heap.len(),
                heap_but_parent(self.heap@, idx as int),
                bridged(self.heap@, idx as int),
                distinct_ids(self.heap@),
                entries(self.heap@) == entries(old(self).heap@),
                self.heap.len() == old(self).heap.len(),
                self.next_id == old(self).next_id,
            ensures
                is_heap(self.heap@),
            decreases len - idx,
        {
            if idx >= len / 2 {
                // No slot lies below `idx`.
                assert forall|i: int| 0 < i < self.heap@.len() implies #[trigger] ordered_at(
                    self.heap@,
                    i,
                ) by {
                    assert(parent(i) != idx);
                }
                break;
            }
            let left: usize = 2 * idx + 1;
            let right: usize = left + 1;
            let mut child: usize = left;
            if right < len && self.heap[right].prio > self.heap[left].prio {
                child = right;
            }
            // `child` is the most urgent of the slots below `idx`.
            assert forall|c: int| 0 < c < self.heap@.len() && parent(c) == idx implies (
            #[trigger] self.heap@[c]).prio <= self.heap@[child as int].prio by {
                assert(c == left || c == right);
            }
            if self.heap[idx].prio >= self.heap[child].prio {
                assert forall|i: int| 0 < i < self.heap@.len() implies #[trigger] ordered_at(
                    self.heap@,
                    i,
                ) by {
                    if parent(i) == idx {
                        assert(self.heap@[i].prio <= self.heap@[child as int].prio);
                    }
                }
                break;
            }
            proof {
                lemma_lowered(self.heap@, idx as int, child as int);
                lemma_entries_swapped(self.heap@, idx as int, child as int);
                assert(above(start, child as int));
            }
            self.heap.swap(idx, child);
            idx = child;
        }
    }
}

} // verus!
