//! The slots that releases have handed to waiters and that wait to be taken.

use vstd::prelude::*;
use vstd::seq_lib::seq_to_set_is_finite;

verus! {

/// Appending a new element to a duplicate-free sequence adds it to the set.
proof fn lemma_added(s: Seq<usize>, id: usize)
    requires
        s.no_duplicates(),
        !s.contains(id),
    ensures
        s.push(id).no_duplicates(),
        s.push(id).to_set() == s.to_set().insert(id),
{
    let t = s.push(id);
    assert forall|x: usize| t.contains(x) == (s.contains(x) || x == id) by {
        if t.contains(x) {
            let k = choose|k: int| 0 <= k < t.len() && t[k] == x;
            assert(k < s.len() ==> s[k] == x);
        }
        if s.contains(x) {
            let k = choose|k: int| 0 <= k < s.len() && s[k] == x;
            assert(t[k] == x);
        }
        if x == id {
            assert(t[s.len() as int] == x);
        }
    }
    assert(t.to_set() =~= s.to_set().insert(id));
}

/// Filling slot `i` with the last element and dropping the last slot takes
/// the element of slot `i`, and no other, out of the set.
proof fn lemma_taken(s: Seq<usize>, i: int)
    requires
        s.no_duplicates(),
        0 <= i < s.len(),
    ensures
        s.update(i, s.last()).drop_last().no_duplicates(),
        s.update(i, s.last()).drop_last().to_set() == s.to_set().remove(s[i]),
{
    let t = s.update(i, s.last()).drop_last();
    let last = s.len() - 1;
    // Slot `k` of `t` holds what slot `from(k)` of `s` held.
    let from = |k: int|
        if k == i {
            last
        } else {
            k
        };
    assert forall|k: int| 0 <= k < t.len() implies #[trigger] t[k] == s[from(k)] by {}
    assert forall|a: int, b: int| 0 <= a < t.len() && 0 <= b < t.len() && a != b implies t[a]
        != t[b] by {
        assert(from(a) != from(b));
    }
    assert forall|x: usize| t.contains(x) == (s.contains(x) && x != s[i]) by {
        if t.contains(x) {
            let k = choose|k: int| 0 <= k < t.len() && t[k] == x;
            assert(s[from(k)] == x);
        }
        if s.contains(x) && x != s[i] {
            let k = choose|k: int| 0 <= k < s.len() && s[k] == x;
            if k == last {
                assert(t[i] == x);
            } else {
                assert(t[k] == x);
            }
        }
    }
    assert(t.to_set() =~= s.to_set().remove(s[i]));
}

/// The ids of the waiters that hold a handed slot, each at most once.
#[derive(Debug)]
pub struct Grants {
    ids: Vec<usize>,
}

impl View for Grants {
    type V = Set<usize>;

    closed spec fn view(&self) -> Set<usize> {
        self.ids@.to_set()
    }
}

impl Grants {
    /// No id is stored twice.
    pub closed spec fn well_stored(&self) -> bool {
        self.ids@.no_duplicates()
    }

    /// The invariant: sound storage of finitely many ids.
    pub open spec fn wf(&self) -> bool {
        &&& self.well_stored()
        &&& self@.finite()
    }

    /// Creates an empty collection.
    pub fn new() -> (grants: Self)
        ensures
            grants.wf(),
            grants@ == Set::<usize>::empty(),
    {
        let grants = Self { ids: Vec::new() };
        proof {
            seq_to_set_is_finite(grants.ids@);
            assert(grants@ =~= Set::<usize>::empty());
        }
        grants
    }

    /// Number of slots that wait to be taken.
    pub fn len(&self) -> (n: usize)
        requires
            self.wf(),
        ensures
            n == self@.len(),
    {
        proof {
            self.ids@.unique_seq_to_set();
        }
        self.ids.len()
    }

    /// Records that the waiter `id` holds a slot.
    pub fn insert(&mut self, id: usize)
        requires
            old(self).wf(),
            !old(self)@.contains(id),
        ensures
            final(self).wf(),
            final(self)@ == old(self)@.insert(id),
    {
        proof {
            lemma_added(self.ids@, id);
        }
        self.ids.push(id);
    }

    /// Takes the slot of the waiter `id`, if it holds one, and says whether it did.
    pub fn take(&mut self, id: usize) -> (found: bool)
        requires
            old(self).wf(),
        ensures
            final(self).wf(),
            found == old(self)@.contains(id),
            final(self)@ == old(self)@.remove(id),
    {
        let mut pos: usize = 0;
        while pos < self.ids.len()
            invariant
                pos <= self.ids.len(),
                old(self).wf(),
                self.ids@ == old(self).ids@,
                forall|i: int| 0 <= i < pos ==> self.ids@[i] != id,
            decreases self.ids.len() - pos,
        {
            if self.ids[pos] == id {
                proof {
                    lemma_taken(self.ids@, pos as int);
                }
                self.ids.swap_remove(pos);
                return true;
            }
            pos += 1;
        }
        assert(self@ =~= old(self)@.remove(id));
        false
    }

    /// Forgets every slot.
    pub fn clear(&mut self)
        ensures
            final(self).wf(),
            final(self)@ == Set::<usize>::empty(),
    {
        self.ids.clear();
        proof {
            seq_to_set_is_finite(self.ids@);
            assert(self@ =~= Set::<usize>::empty());
        }
    }
}

} // verus!
