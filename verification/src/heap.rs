//! The mathematics of the wait queue's storage: a binary max-heap laid out in a
//! sequence, and the map from waiter id to entry that the sequence stands for.

use crate::queue::WaiterEntry;
use vstd::prelude::*;

verus! {

/// Index of the parent of slot `i` (for `i > 0`).
pub open spec fn parent(i: int) -> int {
    (i - 1) / 2
}

/// The entry in slot `i` is not more urgent than its parent.
pub open spec fn ordered_at(s: Seq<WaiterEntry>, i: int) -> bool {
    s[parent(i)].prio >= s[i].prio
}

/// Every entry is at most as urgent as its parent.
pub open spec fn is_heap(s: Seq<WaiterEntry>) -> bool {
    forall|i: int| 0 < i < s.len() ==> #[trigger] ordered_at(s, i)
}

/// The heap order holds everywhere except, possibly, between `hole` and its parent.
pub open spec fn heap_but_child(s: Seq<WaiterEntry>, hole: int) -> bool {
    forall|i: int| 0 < i < s.len() && i != hole ==> #[trigger] ordered_at(s, i)
}

/// The heap order holds everywhere except, possibly, between `hole` and its children.
pub open spec fn heap_but_parent(s: Seq<WaiterEntry>, hole: int) -> bool {
    forall|i: int| 0 < i < s.len() && parent(i) != hole ==> #[trigger] ordered_at(s, i)
}

/// The parent of `hole` is at least as urgent as each child of `hole`.
pub open spec fn bridged(s: Seq<WaiterEntry>, hole: int) -> bool {
    hole > 0 ==> forall|c: int|
        0 < c < s.len() && parent(c) == hole ==> s[parent(hole)].prio >= (#[trigger] s[c]).prio
}

/// Slot `k` is slot `i` or lies on the way from slot `i` up to slot 0; in
/// other words, slot `i` lies in the subtree under slot `k`.
pub open spec fn above(k: int, i: int) -> bool
    decreases i,
{
    k == i || (i > 0 && above(k, parent(i)))
}

/// The ids of the entries of `s`, slot by slot.
pub open spec fn ids_of(s: Seq<WaiterEntry>) -> Seq<usize> {
    Seq::new(s.len(), |i: int| s[i].id)
}

/// No two slots hold the same waiter id.
pub open spec fn distinct_ids(s: Seq<WaiterEntry>) -> bool {
    forall|i: int, j: int| 0 <= i < j < s.len() ==> (#[trigger] s[i]).id != (#[trigger] s[j]).id
}

/// Some slot of `s` holds the waiter `id`.
pub open spec fn has_id(s: Seq<WaiterEntry>, id: usize) -> bool {
    exists|i: int| 0 <= i < s.len() && (#[trigger] s[i]).id == id
}

/// A slot of `s` that holds the waiter `id`, if there is one.
pub open spec fn slot_of(s: Seq<WaiterEntry>, id: usize) -> int {
    choose|i: int| 0 <= i < s.len() && (#[trigger] s[i]).id == id
}

/// The waiters stored in `s`, keyed by id.
pub open spec fn entries(s: Seq<WaiterEntry>) -> Map<usize, WaiterEntry> {
    Map::new(|id: usize| has_id(s, id), |id: usize| s[slot_of(s, id)])
}

/// `s` with the contents of slots `i` and `j` exchanged.
pub open spec fn swapped(s: Seq<WaiterEntry>, i: int, j: int) -> Seq<WaiterEntry> {
    s.update(i, s[j]).update(j, s[i])
}

/// The slot over a slot on the way up from `i` is on that way too.
pub proof fn lemma_above_parent(k: int, i: int)
    requires
        above(k, i),
        k > 0,
    ensures
        above(parent(k), i),
    decreases i,
{
    if k != i {
        lemma_above_parent(k, parent(i));
    } else {
        assert(above(parent(k), parent(k)));
    }
}

/// With distinct ids, the map finds each slot's entry under that entry's id.
pub proof fn lemma_entries_at(s: Seq<WaiterEntry>, i: int)
    requires
        distinct_ids(s),
        0 <= i < s.len(),
    ensures
        has_id(s, s[i].id),
        slot_of(s, s[i].id) == i,
        entries(s).dom().contains(s[i].id),
        entries(s)[s[i].id] == s[i],
{
    let k = slot_of(s, s[i].id);
    assert(s[k].id == s[i].id);
}

/// Every key of the map is the id of the entry stored under it.
pub proof fn lemma_entries_keyed(s: Seq<WaiterEntry>)
    ensures
        forall|id: usize| #[trigger]
            entries(s).dom().contains(id) ==> entries(s)[id].id == id && exists|i: int|
                0 <= i < s.len() && s[i] == entries(s)[id],
{
    assert forall|id: usize| #[trigger] entries(s).dom().contains(id) implies entries(s)[id].id
        == id && exists|i: int| 0 <= i < s.len() && s[i] == entries(s)[id] by {
        let k = slot_of(s, id);
        assert(s[k].id == id);
    }
}

/// Exchanging two slots changes neither the distinctness of ids nor the map.
pub proof fn lemma_entries_swapped(s: Seq<WaiterEntry>, i: int, j: int)
    requires
        distinct_ids(s),
        0 <= i < s.len(),
        0 <= j < s.len(),
    ensures
        distinct_ids(swapped(s, i, j)),
        entries(swapped(s, i, j)) == entries(s),
{
    let t = swapped(s, i, j);
    // Slot `k` of `t` holds what slot `pi(k)` of `s` held.
    let pi = |k: int|
        if k == i {
            j
        } else if k == j {
            i
        } else {
            k
        };
    assert forall|k: int| 0 <= k < s.len() implies #[trigger] t[k] == s[pi(k)] by {}
    assert forall|a: int, b: int| 0 <= a < b < t.len() implies (#[trigger] t[a]).id != (
    #[trigger] t[b]).id by {
        assert(pi(a) != pi(b));
    }
    assert forall|id: usize| has_id(t, id) == has_id(s, id) by {
        if has_id(t, id) {
            assert(s[pi(slot_of(t, id))].id == id);
        }
        if has_id(s, id) {
            assert(t[pi(slot_of(s, id))].id == id);
        }
    }
    assert forall|id: usize| has_id(s, id) implies t[slot_of(t, id)] == s[slot_of(s, id)] by {
        let k = slot_of(s, id);
        lemma_entries_at(s, k);
        lemma_entries_at(t, pi(k));
    }
}

/// Appending an entry with a fresh id inserts it into the map.
pub proof fn lemma_entries_pushed(s: Seq<WaiterEntry>, e: WaiterEntry)
    requires
        distinct_ids(s),
        !has_id(s, e.id),
    ensures
        distinct_ids(s.push(e)),
        entries(s.push(e)) == entries(s).insert(e.id, e),
{
    let t = s.push(e);
    assert forall|id: usize| has_id(t, id) == (has_id(s, id) || id == e.id) by {
        if has_id(t, id) {
            let k = slot_of(t, id);
            assert(k < s.len() ==> s[k].id == id);
        }
        if has_id(s, id) {
            assert(t[slot_of(s, id)].id == id);
        }
        if id == e.id {
            assert(t[s.len() as int].id == id);
        }
    }
    assert forall|id: usize| has_id(t, id) implies t[slot_of(t, id)] == entries(s).insert(
        e.id,
        e,
    )[id] by {
        if id == e.id {
            lemma_entries_at(t, s.len() as int);
        } else {
            let k = slot_of(s, id);
            lemma_entries_at(s, k);
            lemma_entries_at(t, k);
        }
    }
}

/// Dropping the last slot removes its entry from the map.
pub proof fn lemma_entries_dropped(s: Seq<WaiterEntry>)
    requires
        distinct_ids(s),
        s.len() > 0,
    ensures
        distinct_ids(s.drop_last()),
        !has_id(s.drop_last(), s.last().id),
        entries(s.drop_last()) == entries(s).remove(s.last().id),
{
    let t = s.drop_last();
    let gone = s.last().id;
    if has_id(t, gone) {
        assert(s[slot_of(t, gone)].id == s[s.len() - 1].id);
    }
    assert forall|id: usize| has_id(t, id) == (has_id(s, id) && id != gone) by {
        if has_id(t, id) {
            assert(s[slot_of(t, id)].id == id);
        }
        if has_id(s, id) && id != gone {
            assert(t[slot_of(s, id)].id == id);
        }
    }
    assert forall|id: usize| has_id(t, id) implies t[slot_of(t, id)] == s[slot_of(s, id)] by {
        let k = slot_of(t, id);
        lemma_entries_at(t, k);
        lemma_entries_at(s, k);
    }
}

/// Overwriting a slot with an entry of the same id replaces that id's entry in the map.
pub proof fn lemma_entries_updated(s: Seq<WaiterEntry>, i: int, e: WaiterEntry)
    requires
        distinct_ids(s),
        0 <= i < s.len(),
        e.id == s[i].id,
    ensures
        distinct_ids(s.update(i, e)),
        entries(s.update(i, e)) == entries(s).insert(e.id, e),
{
    let t = s.update(i, e);
    assert forall|k: int| 0 <= k < s.len() implies (#[trigger] t[k]).id == s[k].id by {}
    assert forall|id: usize| has_id(t, id) == has_id(s, id) by {
        if has_id(t, id) {
            assert(s[slot_of(t, id)].id == id);
        }
        if has_id(s, id) {
            assert(t[slot_of(s, id)].id == id);
        }
    }
    assert forall|id: usize| has_id(t, id) implies t[slot_of(t, id)] == entries(s).insert(
        e.id,
        e,
    )[id] by {
        let k = slot_of(s, id);
        lemma_entries_at(s, k);
        lemma_entries_at(t, k);
    }
}

/// With distinct ids, the map has exactly one key per slot.
pub proof fn lemma_entries_len(s: Seq<WaiterEntry>)
    requires
        distinct_ids(s),
    ensures
        entries(s).dom().finite(),
        entries(s).dom().len() == s.len(),
    decreases s.len(),
{
    if s.len() == 0 {
        assert(entries(s).dom() =~= Set::<usize>::empty());
    } else {
        lemma_entries_dropped(s);
        lemma_entries_len(s.drop_last());
        lemma_entries_at(s, s.len() - 1);
    }
}

/// In a heap, no entry is more urgent than the one in slot 0.
pub proof fn lemma_root_is_highest(s: Seq<WaiterEntry>, i: int)
    requires
        is_heap(s),
        0 <= i < s.len(),
    ensures
        s[0].prio >= s[i].prio,
    decreases i,
{
    if i > 0 {
        assert(ordered_at(s, i));
        lemma_root_is_highest(s, parent(i));
    }
}

/// Moving a too-urgent entry one level up leaves a sequence that is a heap
/// except, possibly, between that entry's new slot and the slot above it.
pub proof fn lemma_lifted(s: Seq<WaiterEntry>, hole: int)
    requires
        0 < hole < s.len(),
        heap_but_child(s, hole),
        bridged(s, hole),
        s[parent(hole)].prio < s[hole].prio,
    ensures
        heap_but_child(swapped(s, parent(hole), hole), parent(hole)),
        bridged(swapped(s, parent(hole), hole), parent(hole)),
{
    let p = parent(hole);
    let t = swapped(s, p, hole);
    assert forall|i: int| 0 < i < t.len() && i != p implies #[trigger] ordered_at(t, i) by {
        if i == hole {
            // The entry that went up is the more urgent of the two.
        } else if parent(i) == hole {
            // The entry that came down dominated these slots from above.
            assert(s[parent(hole)].prio >= s[i].prio);
        } else {
            // Below `p` the more urgent entry took over; elsewhere nothing moved.
            assert(ordered_at(s, i));
        }
    }
    if p > 0 {
        assert(ordered_at(s, p));
        assert forall|c: int| 0 < c < t.len() && parent(c) == p implies t[parent(p)].prio >= (
        #[trigger] t[c]).prio by {
            if c != hole {
                assert(ordered_at(s, c));
            }
        }
    }
}

/// Moving a not-urgent-enough entry one level down, under its most urgent child,
/// leaves a sequence that is a heap except, possibly, between that entry's new
/// slot and the slots below it.
pub proof fn lemma_lowered(s: Seq<WaiterEntry>, hole: int, child: int)
    requires
        0 <= hole < child < s.len(),
        parent(child) == hole,
        heap_but_parent(s, hole),
        bridged(s, hole),
        s[hole].prio < s[child].prio,
        forall|c: int| 0 < c < s.len() && parent(c) == hole ==> (#[trigger] s[c]).prio <= s[child].prio,
    ensures
        heap_but_parent(swapped(s, hole, child), child),
        bridged(swapped(s, hole, child), child),
{
    let t = swapped(s, hole, child);
    assert forall|i: int| 0 < i < t.len() && parent(i) != child implies #[trigger] ordered_at(
        t,
        i,
    ) by {
        if i == child {
            // The entry that went up is the more urgent of the two.
        } else if parent(i) == hole {
            // The entry that went up was the most urgent below `hole`.
            assert(s[i].prio <= s[child].prio);
        } else if i == hole {
            // The slot above `hole` dominated everything below `hole`.
            assert(s[parent(hole)].prio >= s[child].prio);
        } else {
            assert(ordered_at(s, i));
        }
    }
    assert forall|c: int| 0 < c < t.len() && parent(c) == child implies t[parent(child)].prio >= (
    #[trigger] t[c]).prio by {
        assert(ordered_at(s, c));
    }
}

/// Putting any entry into slot `hole` of a heap breaks the order at most between
/// that slot and its neighbours, and the slot above still dominates the slots below.
pub proof fn lemma_replaced(s: Seq<WaiterEntry>, hole: int, e: WaiterEntry)
    requires
        is_heap(s),
        0 <= hole < s.len(),
    ensures
        bridged(s.update(hole, e), hole),
        hole > 0 && s[parent(hole)].prio < e.prio ==> heap_but_child(s.update(hole, e), hole),
        hole == 0 || s[parent(hole)].prio >= e.prio ==> heap_but_parent(s.update(hole, e), hole),
{
    let t = s.update(hole, e);
    if hole > 0 {
        assert(ordered_at(s, hole));
        assert forall|c: int| 0 < c < t.len() && parent(c) == hole implies t[parent(hole)].prio >= (
        #[trigger] t[c]).prio by {
            assert(ordered_at(s, c));
        }
    }
    if hole > 0 && s[parent(hole)].prio < e.prio {
        assert forall|i: int| 0 < i < t.len() && i != hole implies #[trigger] ordered_at(t, i) by {
            assert(ordered_at(s, i));
        }
    }
    if hole == 0 || s[parent(hole)].prio >= e.prio {
        assert forall|i: int| 0 < i < t.len() && parent(i) != hole implies #[trigger] ordered_at(
            t,
            i,
        ) by {
            assert(ordered_at(s, i));
        }
    }
}

/// Dropping the last slot of a heap leaves a heap.
pub proof fn lemma_heap_dropped(s: Seq<WaiterEntry>)
    requires
        is_heap(s),
        s.len() > 0,
    ensures
        is_heap(s.drop_last()),
{
    let t = s.drop_last();
    assert forall|i: int| 0 < i < t.len() implies #[trigger] ordered_at(t, i) by {
        assert(ordered_at(s, i));
    }
}

} // verus!
