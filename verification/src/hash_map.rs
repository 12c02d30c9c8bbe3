//! A small map keyed by hashes.

use crate::primitives::Hash256;
use vstd::prelude::*;

verus! {

/// The keys of a sequence of entries, in the order of the entries.
pub open spec fn keys_of<V>(entries: Seq<(Hash256, V)>) -> Seq<Hash256> {
    Seq::new(entries.len(), |i: int| entries[i].0)
}

/// The values of a sequence of entries, in the order of the entries.
pub open spec fn values_of<V>(entries: Seq<(Hash256, V)>) -> Seq<V> {
    Seq::new(entries.len(), |i: int| entries[i].1)
}

/// The map that a sequence of entries stands for: each key is mapped to the
/// value of the first entry that has it.
pub open spec fn map_of<V>(entries: Seq<(Hash256, V)>) -> Map<Hash256, V> {
    Map::new(
        |h: Hash256| keys_of(entries).contains(h),
        |h: Hash256| entries[keys_of(entries).index_of(h)].1,
    )
}

/// With distinct keys, every entry is found under its key.
pub proof fn lemma_entries_are_mapped<V>(entries: Seq<(Hash256, V)>)
    requires
        keys_of(entries).no_duplicates(),
    ensures
        forall|i: int|
            0 <= i < entries.len() ==> map_of(entries).dom().contains(#[trigger] entries[i].0)
                && map_of(entries)[entries[i].0] == entries[i].1,
        forall|i: int|
            0 <= i < entries.len() ==> keys_of(entries).index_of(#[trigger] keys_of(entries)[i])
                == i,
{
    assert forall|i: int| 0 <= i < entries.len() implies keys_of(entries).index_of(
        #[trigger] keys_of(entries)[i],
    ) == i by {
        let keys = keys_of(entries);
        assert(keys[i] == keys[i]);
        let j = keys.index_of(keys[i]);
        assert(0 <= j < keys.len() && keys[j] == keys[i]);
    }
    assert forall|i: int| 0 <= i < entries.len() implies map_of(entries).dom().contains(
        #[trigger] entries[i].0,
    ) && map_of(entries)[entries[i].0] == entries[i].1 by {
        let keys = keys_of(entries);
        assert(keys[i] == entries[i].0);
        assert(keys.index_of(keys[i]) == i);
    }
}

/// Appending an entry with a new key adds it to the map.
pub proof fn lemma_map_of_push<V>(entries: Seq<(Hash256, V)>, hash: Hash256, value: V)
    requires
        keys_of(entries).no_duplicates(),
        !keys_of(entries).contains(hash),
    ensures
        keys_of(entries.push((hash, value))) == keys_of(entries).push(hash),
        keys_of(entries.push((hash, value))).no_duplicates(),
        map_of(entries.push((hash, value))) == map_of(entries).insert(hash, value),
{
    lemma_map_of_insert(entries, entries.len() as int, hash, value);
    assert(entries.insert(entries.len() as int, (hash, value)) =~= entries.push((hash, value)));
    assert(keys_of(entries.push((hash, value))) =~= keys_of(entries).push(hash));
}

/// Replacing the value of an entry replaces it in the map.
pub proof fn lemma_map_of_update<V>(entries: Seq<(Hash256, V)>, at: int, value: V)
    requires
        keys_of(entries).no_duplicates(),
        0 <= at < entries.len(),
    ensures
        keys_of(entries.update(at, (entries[at].0, value))) == keys_of(entries),
        map_of(entries.update(at, (entries[at].0, value))) == map_of(entries).insert(
            entries[at].0,
            value,
        ),
{
    let hash = entries[at].0;
    let after = entries.update(at, (hash, value));
    assert(keys_of(after) =~= keys_of(entries));
    lemma_entries_are_mapped(entries);
    lemma_entries_are_mapped(after);
    assert(keys_of(entries)[at] == hash);
    assert(map_of(after) =~= map_of(entries).insert(hash, value)) by {
        assert forall|h: Hash256| #[trigger]
            map_of(after).dom().contains(h) implies map_of(after)[h] == map_of(entries).insert(
            hash,
            value,
        )[h] by {
            let j = keys_of(after).index_of(h);
            assert(keys_of(after)[j] == h);
            assert(after[j].0 == h);
            assert(entries[j].0 == h);
        }
    }
}

/// Taking out an entry removes its key from the map.
pub proof fn lemma_map_of_remove<V>(entries: Seq<(Hash256, V)>, at: int)
    requires
        keys_of(entries).no_duplicates(),
        0 <= at < entries.len(),
    ensures
        keys_of(entries.remove(at)) == keys_of(entries).remove(at),
        keys_of(entries.remove(at)).no_duplicates(),
        map_of(entries.remove(at)) == map_of(entries).remove(entries[at].0),
{
    let after = entries.remove(at);
    let hash = entries[at].0;
    assert(keys_of(after) =~= keys_of(entries).remove(at));
    assert(keys_of(after).no_duplicates());
    lemma_entries_are_mapped(entries);
    lemma_entries_are_mapped(after);
    assert(map_of(after) =~= map_of(entries).remove(hash)) by {
        assert forall|h: Hash256|
            keys_of(after).contains(h) <==> (h != hash && keys_of(entries).contains(h)) by {
            assert(keys_of(entries)[at] == hash);
            if keys_of(after).contains(h) {
                let j = keys_of(after).index_of(h);
                assert(keys_of(after)[j] == h);
                if j < at {
                    assert(keys_of(entries)[j] == h);
                } else {
                    assert(keys_of(entries)[j + 1] == h);
                }
            }
            if h != hash && keys_of(entries).contains(h) {
                let j = keys_of(entries).index_of(h);
                if j < at {
                    assert(keys_of(after)[j] == h);
                } else {
                    assert(keys_of(after)[j - 1] == h);
                }
            }
        }
        assert forall|h: Hash256| #[trigger]
            map_of(after).dom().contains(h) implies map_of(after)[h] == map_of(entries)[h] by {
            let j = keys_of(after).index_of(h);
            assert(after[j].0 == h);
            if j < at {
                assert(entries[j].0 == h);
            } else {
                assert(entries[j + 1].0 == h);
            }
        }
    }
}

/// Putting in an entry with a new key adds it to the map, wherever it is put.
pub proof fn lemma_map_of_insert<V>(entries: Seq<(Hash256, V)>, at: int, hash: Hash256, value: V)
    requires
        keys_of(entries).no_duplicates(),
        0 <= at <= entries.len(),
        !keys_of(entries).contains(hash),
    ensures
        keys_of(entries.insert(at, (hash, value))) == keys_of(entries).insert(at, hash),
        keys_of(entries.insert(at, (hash, value))).no_duplicates(),
        map_of(entries.insert(at, (hash, value))) == map_of(entries).insert(hash, value),
{
    let after = entries.insert(at, (hash, value));
    assert(keys_of(after) =~= keys_of(entries).insert(at, hash));
    assert(keys_of(after).no_duplicates()) by {
        assert forall|i: int, j: int| 0 <= i < j < after.len() implies keys_of(after)[i]
            != keys_of(after)[j] by {
            let bi = if i < at { i } else { i - 1 };
            let bj = if j < at { j } else { j - 1 };
            if i != at && j != at {
                assert(keys_of(entries)[bi] != keys_of(entries)[bj]);
            } else if i == at {
                assert(keys_of(entries)[bj] == keys_of(after)[j]);
            } else {
                assert(keys_of(entries)[bi] == keys_of(after)[i]);
            }
        }
    }
    lemma_entries_are_mapped(entries);
    lemma_entries_are_mapped(after);
    assert(map_of(after) =~= map_of(entries).insert(hash, value)) by {
        assert forall|h: Hash256|
            keys_of(after).contains(h) <==> (h == hash || keys_of(entries).contains(h)) by {
            if keys_of(entries).contains(h) {
                let j = keys_of(entries).index_of(h);
                if j < at {
                    assert(keys_of(after)[j] == h);
                } else {
                    assert(keys_of(after)[j + 1] == h);
                }
            }
            if h == hash {
                assert(keys_of(after)[at] == h);
            }
            if keys_of(after).contains(h) && h != hash {
                let j = keys_of(after).index_of(h);
                assert(keys_of(after)[j] == h);
                if j < at {
                    assert(keys_of(entries)[j] == h);
                } else {
                    assert(keys_of(entries)[j - 1] == h);
                }
            }
        }
        assert forall|h: Hash256| #[trigger]
            map_of(after).dom().contains(h) implies map_of(after)[h] == map_of(entries).insert(
            hash,
            value,
        )[h] by {
            let j = keys_of(after).index_of(h);
            assert(after[j].0 == h);
            if h != hash {
                if j < at {
                    assert(entries[j].0 == h);
                } else {
                    assert(entries[j - 1].0 == h);
                }
            }
        }
    }
}

/// A prefix that is one longer holds the members of the shorter one and the
/// member that follows them.
pub proof fn lemma_prefix_grows(hashes: Seq<Hash256>, i: int)
    requires
        0 <= i < hashes.len(),
    ensures
        forall|h: Hash256|
            hashes.take(i + 1).contains(h) <==> (hashes.take(i).contains(h) || h == hashes[i]),
        hashes.take(i + 1).to_set() == hashes.take(i).to_set().insert(hashes[i]),
{
    let done = hashes.take(i);
    let next = hashes.take(i + 1);
    assert forall|h: Hash256| next.contains(h) <==> (done.contains(h) || h == hashes[i]) by {
        if done.contains(h) {
            let j = choose|j: int| 0 <= j < done.len() && done[j] == h;
            assert(next[j] == h);
        }
        if h == hashes[i] {
            assert(next[i] == h);
        }
        if next.contains(h) && h != hashes[i] {
            let j = choose|j: int| 0 <= j < next.len() && next[j] == h;
            assert(done[j] == h);
        }
    }
    assert(next.to_set() =~= done.to_set().insert(hashes[i]));
}

/// Whether `first` and `second` are both among `keys`, `first` before
/// `second`.
pub open spec fn in_order(keys: Seq<Hash256>, first: Hash256, second: Hash256) -> bool {
    keys.contains(first) && keys.contains(second) && keys.index_of(first) < keys.index_of(second)
}

/// Whether the keys of `after` stand in the order in which they stand in
/// `before`: every pair of them is found in `before`, in the same order.
pub open spec fn same_order(before: Seq<Hash256>, after: Seq<Hash256>) -> bool {
    forall|i: int, j: int|
        0 <= i < j < after.len() ==> in_order(before, #[trigger] after[i], #[trigger] after[j])
}

/// Distinct keys stand in their own order.
pub proof fn lemma_same_order_reflexive(keys: Seq<Hash256>)
    requires
        keys.no_duplicates(),
    ensures
        same_order(keys, keys),
{
    assert forall|i: int, j: int| 0 <= i < j < keys.len() implies in_order(
        keys,
        #[trigger] keys[i],
        #[trigger] keys[j],
    ) by {
        let a = keys.index_of(keys[i]);
        let b = keys.index_of(keys[j]);
        assert(keys[a] == keys[i] && keys[b] == keys[j]);
    }
}

/// Taking out a key leaves the others in their order.
pub proof fn lemma_remove_keeps_order(keys: Seq<Hash256>, at: int)
    requires
        keys.no_duplicates(),
        0 <= at < keys.len(),
    ensures
        same_order(keys, keys.remove(at)),
{
    let after = keys.remove(at);
    assert forall|i: int, j: int| 0 <= i < j < after.len() implies in_order(
        keys,
        #[trigger] after[i],
        #[trigger] after[j],
    ) by {
        let bi = if i < at { i } else { i + 1 };
        let bj = if j < at { j } else { j + 1 };
        assert(keys[bi] == after[i] && keys[bj] == after[j]);
        let a = keys.index_of(after[i]);
        let b = keys.index_of(after[j]);
        assert(keys[a] == keys[bi] && keys[b] == keys[bj]);
    }
}

/// Keeping the order twice keeps the order.
pub proof fn lemma_same_order_transitive(a: Seq<Hash256>, b: Seq<Hash256>, c: Seq<Hash256>)
    requires
        same_order(a, b),
        same_order(b, c),
    ensures
        same_order(a, c),
{
    assert forall|i: int, j: int| 0 <= i < j < c.len() implies in_order(
        a,
        #[trigger] c[i],
        #[trigger] c[j],
    ) by {
        assert(in_order(b, c[i], c[j]));
        let bi = b.index_of(c[i]);
        let bj = b.index_of(c[j]);
        assert(b[bi] == c[i] && b[bj] == c[j]);
        assert(in_order(a, b[bi], b[bj]));
    }
}

/// A finite map from hashes to values of type `V`.
///
/// The entries sit in a vector, in the order in which their keys were first
/// inserted; no key occurs twice.
#[derive(Debug)]
pub struct HashMap256<V> {
    entries: Vec<(Hash256, V)>,
}

impl<V> View for HashMap256<V> {
    type V = Map<Hash256, V>;

    open spec fn view(&self) -> Map<Hash256, V> {
        map_of(self.entries())
    }
}

impl<V> HashMap256<V> {
    /// The entries, in the order in which the map holds them.
    pub closed spec fn entries(&self) -> Seq<(Hash256, V)> {
        self.entries@
    }

    /// The keys, in the order in which the map holds them.
    pub open spec fn keys(&self) -> Seq<Hash256> {
        keys_of(self.entries())
    }

    /// The values, in the order of their keys.
    pub open spec fn values(&self) -> Seq<V> {
        values_of(self.entries())
    }

    /// What ties the ordered entries to the map: the keys are distinct, they
    /// are the map's domain, and each is mapped to the value beside it.
    pub open spec fn consistent(&self) -> bool {
        &&& self.keys().no_duplicates()
        &&& self@.dom() =~= self.keys().to_set()
        &&& forall|i: int|
            0 <= i < self.entries().len() ==> self@.dom().contains(#[trigger] self.entries()[i].0)
                && self@[self.entries()[i].0] == self.entries()[i].1
    }

    #[verifier::type_invariant]
    closed spec fn distinct_keys(&self) -> bool {
        keys_of(self.entries@).no_duplicates()
    }

    /// The empty map.
    pub fn new() -> (m: HashMap256<V>)
        ensures
            m.consistent(),
            m.entries() == Seq::<(Hash256, V)>::empty(),
            m@ == Map::<Hash256, V>::empty(),
    {
        let m = HashMap256 { entries: Vec::new() };
        assert(m@ =~= Map::<Hash256, V>::empty());
        m
    }

    /// The number of entries.
    pub fn len(&self) -> (n: usize)
        ensures
            self.consistent(),
            n == self.entries().len(),
    {
        proof {
            use_type_invariant(self);
            lemma_entries_are_mapped(self.entries@);
        }
        self.entries.len()
    }

    /// The place of `hash` among the keys, if it is one.
    pub fn position(&self, hash: Hash256) -> (at: Option<usize>)
        ensures
            self.consistent(),
            match at {
                Some(i) => i < self.keys().len() && self.keys()[i as int] == hash,
                None => !self.keys().contains(hash),
            },
            at.is_some() == self@.dom().contains(hash),
    {
        proof {
            use_type_invariant(self);
            lemma_entries_are_mapped(self.entries@);
        }
        let mut i: usize = 0;
        while i < self.entries.len()
            invariant
                self.consistent(),
                i <= self.entries.len(),
                forall|j: int| 0 <= j < i ==> self.keys()[j] != hash,
            decreases self.entries.len() - i,
        {
            if self.entries[i].0 == hash {
                assert(self.keys()[i as int] == hash);
                return Some(i);
            }
            i += 1;
        }
        None
    }

    /// Whether `hash` is a key.
    pub fn contains_key(&self, hash: Hash256) -> (found: bool)
        ensures
            self.consistent(),
            found == self@.dom().contains(hash),
    {
        self.position(hash).is_some()
    }

    /// The value under `hash`, if it is a key.
    pub fn get(&self, hash: Hash256) -> (value: Option<&V>)
        ensures
            self.consistent(),
            match value {
                Some(v) => self@.dom().contains(hash) && *v == self@[hash],
                None => !self@.dom().contains(hash),
            },
    {
        match self.position(hash) {
            Some(i) => Some(&self.entries[i].1),
            None => None,
        }
    }

    /// The key at place `at`.
    pub fn key_at(&self, at: usize) -> (hash: Hash256)
        requires
            at < self.entries().len(),
        ensures
            self.consistent(),
            hash == self.keys()[at as int],
    {
        proof {
            use_type_invariant(self);
            lemma_entries_are_mapped(self.entries@);
        }
        self.entries[at].0
    }

    /// The value at place `at`.
    pub fn value_at(&self, at: usize) -> (value: &V)
        requires
            at < self.entries().len(),
        ensures
            self.consistent(),
            *value == self.values()[at as int],
            *value == self@[self.keys()[at as int]],
    {
        proof {
            use_type_invariant(self);
            lemma_entries_are_mapped(self.entries@);
        }
        &self.entries[at].1
    }

    /// Maps `hash` to `value`. A key that is already there keeps its place and
    /// has its value replaced; a new key goes to the end. Returns whether the
    /// key is new.
    pub fn insert(&mut self, hash: Hash256, value: V) -> (fresh: bool)
        ensures
            final(self).consistent(),
            final(self)@ == old(self)@.insert(hash, value),
            fresh == !old(self)@.dom().contains(hash),
            fresh ==> final(self).entries() == old(self).entries().push((hash, value)),
            !fresh ==> final(self).entries() == old(self).entries().update(
                old(self).keys().index_of(hash),
                (hash, value),
            ),
    {
        proof {
            use_type_invariant(&*self);
            lemma_entries_are_mapped(self.entries@);
        }
        let at = self.position(hash);
        let ghost before = self.entries@;
        let mut entries: Vec<(Hash256, V)> = Vec::new();
        core::mem::swap(&mut self.entries, &mut entries);
        let fresh = match at {
            Some(i) => {
                proof {
                    lemma_map_of_update(before, i as int, value);
                    assert(keys_of(before)[i as int] == hash);
                }
                entries.set(i, (hash, value));
                false
            },
            None => {
                proof {
                    lemma_map_of_push(before, hash, value);
                }
                entries.push((hash, value));
                true
            },
        };
        proof {
            lemma_entries_are_mapped(entries@);
        }
        self.entries = entries;
        fresh
    }

    /// Takes out the entry at place `at`; the entries behind it move up.
    pub fn take_at(&mut self, at: usize) -> (entry: (Hash256, V))
        requires
            at < old(self).entries().len(),
        ensures
            final(self).consistent(),
            entry == old(self).entries()[at as int],
            final(self).entries() == old(self).entries().remove(at as int),
            final(self)@ == old(self)@.remove(entry.0),
    {
        proof {
            use_type_invariant(&*self);
            lemma_entries_are_mapped(self.entries@);
        }
        let ghost before = self.entries@;
        let mut entries: Vec<(Hash256, V)> = Vec::new();
        core::mem::swap(&mut self.entries, &mut entries);
        proof {
            lemma_map_of_remove(before, at as int);
        }
        let entry = entries.remove(at);
        proof {
            lemma_entries_are_mapped(entries@);
        }
        self.entries = entries;
        entry
    }

    /// Puts an entry with a new key at place `at`; the entries from that place
    /// on move back.
    pub fn put_at(&mut self, at: usize, hash: Hash256, value: V)
        requires
            at <= old(self).entries().len(),
            !old(self)@.dom().contains(hash),
        ensures
            final(self).consistent(),
            final(self).entries() == old(self).entries().insert(at as int, (hash, value)),
            final(self)@ == old(self)@.insert(hash, value),
    {
        proof {
            use_type_invariant(&*self);
            lemma_entries_are_mapped(self.entries@);
        }
        let ghost before = self.entries@;
        let mut entries: Vec<(Hash256, V)> = Vec::new();
        core::mem::swap(&mut self.entries, &mut entries);
        proof {
            lemma_map_of_insert(before, at as int, hash, value);
        }
        entries.insert(at, (hash, value));
        proof {
            lemma_entries_are_mapped(entries@);
        }
        self.entries = entries;
    }

    /// Takes out the entry under `hash`, if it is a key, and returns its value.
    pub fn remove(&mut self, hash: Hash256) -> (value: Option<V>)
        ensures
            final(self).consistent(),
            final(self)@ == old(self)@.remove(hash),
            match value {
                Some(v) => old(self)@.dom().contains(hash) && v == old(self)@[hash]
                    && final(self).entries() == old(self).entries().remove(
                    old(self).keys().index_of(hash),
                ),
                None => !old(self)@.dom().contains(hash) && final(self).entries() == old(
                    self,
                ).entries(),
            },
    {
        match self.position(hash) {
            Some(i) => {
                proof {
                    use_type_invariant(&*self);
                    lemma_entries_are_mapped(self.entries@);
                }
                let entry = self.take_at(i);
                Some(entry.1)
            },
            None => {
                assert(self@.remove(hash) =~= self@);
                None
            },
        }
    }
}

} // verus!
