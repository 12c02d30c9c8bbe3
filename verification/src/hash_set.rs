//! A small set of hashes.

use crate::primitives::Hash256;
use vstd::prelude::*;

verus! {

/// A finite set of hashes.
///
/// The elements sit in a vector in no particular order; the set it stands for
/// is the set of the vector's elements.
#[derive(Debug)]
pub struct HashSet256 {
    items: Vec<Hash256>,
}

impl View for HashSet256 {
    type V = Set<Hash256>;

    closed spec fn view(&self) -> Set<Hash256> {
        self.items@.to_set()
    }
}

impl HashSet256 {
    /// The empty set.
    pub fn new() -> (s: HashSet256)
        ensures
            s@ == Set::<Hash256>::empty(),
    {
        let s = HashSet256 { items: Vec::new() };
        assert(s.items@.to_set() =~= Set::<Hash256>::empty());
        s
    }

    /// Whether `hash` is an element.
    pub fn contains(&self, hash: Hash256) -> (found: bool)
        ensures
            found == self@.contains(hash),
    {
        let mut i: usize = 0;
        while i < self.items.len()
            invariant
                i <= self.items.len(),
                forall|j: int| 0 <= j < i ==> self.items@[j] != hash,
            decreases self.items.len() - i,
        {
            if self.items[i] == hash {
                return true;
            }
            i += 1;
        }
        false
    }

    /// Adds `hash`. Returns whether it was absent before.
    pub fn insert(&mut self, hash: Hash256) -> (fresh: bool)
        ensures
            final(self)@ == old(self)@.insert(hash),
            fresh == !old(self)@.contains(hash),
    {
        if self.contains(hash) {
            assert(self@.insert(hash) =~= self@);
            false
        } else {
            self.items.push(hash);
            assert(self.items@.to_set() =~= old(self).items@.to_set().insert(hash)) by {
                assert forall|h: Hash256|
                    self.items@.contains(h) <==> (h == hash || old(self).items@.contains(h)) by {
                    if old(self).items@.contains(h) {
                        let j = choose|j: int| 0 <= j < old(self).items@.len() && old(self).items@[j] == h;
                        assert(self.items@[j] == h);
                    }
                    if h == hash {
                        assert(self.items@[self.items@.len() - 1] == h);
                    }
                }
            }
            true
        }
    }

    /// Removes `hash`. Returns whether it was present before.
    pub fn remove(&mut self, hash: Hash256) -> (present: bool)
        ensures
            final(self)@ == old(self)@.remove(hash),
            present == old(self)@.contains(hash),
    {
        let mut kept: Vec<Hash256> = Vec::new();
        let mut present = false;
        let mut i: usize = 0;
        while i < self.items.len()
            invariant
                i <= self.items.len(),
                present == exists|j: int| 0 <= j < i && self.items@[j] == hash,
                forall|h: Hash256|
                    kept@.contains(h) <==> (h != hash && exists|j: int|
                        0 <= j < i && self.items@[j] == h),
            decreases self.items.len() - i,
        {
            let item = self.items[i];
            let ghost before = kept@;
            if item == hash {
                present = true;
            } else {
                kept.push(item);
                assert(kept@[kept@.len() - 1] == item);
                assert forall|h: Hash256| kept@.contains(h) implies (h != hash && exists|j: int|
                    0 <= j < i + 1 && self.items@[j] == h) by {
                    let k = choose|k: int| 0 <= k < kept@.len() && kept@[k] == h;
                    if k < before.len() {
                        assert(before[k] == h);
                        assert(before.contains(h));
                    } else {
                        assert(self.items@[i as int] == h);
                    }
                }
                assert forall|h: Hash256| (h != hash && exists|j: int|
                    0 <= j < i + 1 && self.items@[j] == h) implies kept@.contains(h) by {
                    let j = choose|j: int| 0 <= j < i + 1 && self.items@[j] == h;
                    if j < i {
                        assert(before.contains(h));
                        let k = choose|k: int| 0 <= k < before.len() && before[k] == h;
                        assert(kept@[k] == h);
                    }
                }
            }
            i += 1;
        }
        assert(kept@.to_set() =~= self.items@.to_set().remove(hash)) by {
            assert forall|h: Hash256| kept@.contains(h) <==> (self.items@.contains(h) && h != hash) by {
                if self.items@.contains(h) && h != hash {
                    let j = choose|j: int| 0 <= j < self.items@.len() && self.items@[j] == h;
                    assert(0 <= j < i && self.items@[j] == h);
                }
            }
        }
        self.items = kept;
        present
    }

    /// Whether the two sets have no element in common.
    pub fn is_disjoint(&self, other: &HashSet256) -> (disjoint: bool)
        ensures
            disjoint == self@.disjoint(other@),
    {
        let mut i: usize = 0;
        while i < self.items.len()
            invariant
                i <= self.items.len(),
                forall|j: int| 0 <= j < i ==> !other@.contains(self.items@[j]),
            decreases self.items.len() - i,
        {
            if other.contains(self.items[i]) {
                assert(self@.contains(self.items@[i as int]));
                return false;
            }
            i += 1;
        }
        assert forall|h: Hash256| !(self@.contains(h) && other@.contains(h)) by {
            if self@.contains(h) {
                let j = choose|j: int| 0 <= j < self.items@.len() && self.items@[j] == h;
                assert(!other@.contains(self.items@[j]));
            }
        }
        true
    }
}

} // verus!
