//! The transaction memory pool: the buffer of all outstanding transactions.
//!
//! The buffer holds every transaction that may still be valid, independent of
//! any view. It is what new views are filled from. Transactions leave it when
//! they are finalized or found invalid at a finalized block.

use crate::api::ChainApi;
use crate::hash_map::{
    keys_of, lemma_entries_are_mapped, lemma_map_of_push, lemma_map_of_remove,
    lemma_map_of_update, lemma_prefix_grows, lemma_remove_keeps_order,
    lemma_same_order_reflexive,
    lemma_same_order_transitive, map_of, same_order, HashMap256,
};
use crate::multi_view_listener::{
    after_deliveries, deliveries_fit, queued_invalidations, Delivery, MultiViewListener,
};
use crate::primitives::{Hash256, HashAndNumber, TransactionSource};
use crate::transaction_validity::{InvalidTransaction, TransactionValidityError, ValidationResult};
use itertools::Itertools;
use vstd::prelude::*;
use vstd::seq_lib::to_multiset_contains;

verus! {

/// The least number of blocks between two revalidations of one transaction.
pub const TXMEMPOOL_REVALIDATION_PERIOD: u64 = 10;

/// The most transactions that are revalidated in one batch.
pub const TXMEMPOOL_MAX_REVALIDATION_BATCH_SIZE: usize = 1000;

/// A transaction in the buffer, as contracts speak of it.
pub struct TxInMemPoolView {
    /// Whether the submitter follows the transaction's status.
    pub watched: bool,
    /// The body of the transaction.
    pub tx: Seq<u8>,
    /// Where the transaction came from.
    pub source: TransactionSource,
    /// The number of the block at which the transaction was last revalidated.
    pub validated_at: u64,
}

/// A transaction in the buffer.
#[derive(Debug)]
pub struct TxInMemPool {
    watched: bool,
    tx: Vec<u8>,
    source: TransactionSource,
    validated_at: u64,
}

impl View for TxInMemPool {
    type V = TxInMemPoolView;

    closed spec fn view(&self) -> TxInMemPoolView {
        TxInMemPoolView {
            watched: self.watched,
            tx: self.tx@,
            source: self.source,
            validated_at: self.validated_at,
        }
    }
}

/// A copy of the given bytes.
fn copy_bytes(bytes: &Vec<u8>) -> (copy: Vec<u8>)
    ensures
        copy@ == bytes@,
{
    let copy = bytes.clone();
    assert(copy@ =~= bytes@);
    copy
}

/// Whether the two byte strings are equal.
fn same_bytes(a: &Vec<u8>, b: &Vec<u8>) -> (same: bool)
    ensures
        same == (a@ == b@),
{
    if a.len() != b.len() {
        return false;
    }
    let mut i: usize = 0;
    while i < a.len()
        invariant
            a.len() == b.len(),
            i <= a.len(),
            forall|j: int| 0 <= j < i ==> a@[j] == b@[j],
        decreases a.len() - i,
    {
        if a[i] != b[i] {
            return false;
        }
        i += 1;
    }
    assert(a@ =~= b@);
    true
}

impl TxInMemPool {
    /// Whether the submitter follows the transaction's status.
    pub fn is_watched(&self) -> (watched: bool)
        ensures
            watched == self@.watched,
    {
        self.watched
    }

    /// An entry for a transaction that nobody watches, not revalidated yet.
    pub fn new_unwatched(source: TransactionSource, tx: Vec<u8>) -> (entry: TxInMemPool)
        ensures
            entry@ == (TxInMemPoolView { watched: false, tx: tx@, source, validated_at: 0 }),
    {
        TxInMemPool { watched: false, tx, source, validated_at: 0 }
    }

    /// An entry for a watched transaction, not revalidated yet.
    pub fn new_watched(source: TransactionSource, tx: Vec<u8>) -> (entry: TxInMemPool)
        ensures
            entry@ == (TxInMemPoolView { watched: true, tx: tx@, source, validated_at: 0 }),
    {
        TxInMemPool { watched: true, tx, source, validated_at: 0 }
    }

    /// The body of the transaction.
    pub fn tx(&self) -> (tx: Vec<u8>)
        ensures
            tx@ == self@.tx,
    {
        copy_bytes(&self.tx)
    }

    /// Where the transaction came from.
    pub fn source(&self) -> (source: TransactionSource)
        ensures
            source == self@.source,
    {
        self.source
    }

    /// The number of the block at which the transaction was last revalidated;
    /// zero if it never was.
    pub fn validated_at(&self) -> (number: u64)
        ensures
            number == self@.validated_at,
    {
        self.validated_at
    }

    /// A copy of the entry.
    pub fn duplicate(&self) -> (copy: TxInMemPool)
        ensures
            copy@ == self@,
    {
        TxInMemPool {
            watched: self.watched,
            tx: copy_bytes(&self.tx),
            source: self.source,
            validated_at: self.validated_at,
        }
    }

    /// The entry, revalidated at block number `number`.
    fn revalidated_at(self, number: u64) -> (entry: TxInMemPool)
        ensures
            entry@ == (TxInMemPoolView { validated_at: number, ..self@ }),
    {
        TxInMemPool { watched: self.watched, tx: self.tx, source: self.source, validated_at: number }
    }
}

/// The entries as contracts speak of them, in the same order.
pub open spec fn entry_views(entries: Seq<(Hash256, TxInMemPool)>) -> Seq<(Hash256, TxInMemPoolView)> {
    Seq::new(entries.len(), |i: int| (entries[i].0, entries[i].1@))
}

/// The entries after `entry` was buffered under `hash`: an entry with that
/// hash is replaced where it stands, a new one goes to the end.
pub open spec fn with_entry(
    entries: Seq<(Hash256, TxInMemPoolView)>,
    hash: Hash256,
    entry: TxInMemPoolView,
) -> Seq<(Hash256, TxInMemPoolView)> {
    if keys_of(entries).contains(hash) {
        entries.update(keys_of(entries).index_of(hash), (hash, entry))
    } else {
        entries.push((hash, entry))
    }
}

/// The number of watched entries among `entries`.
pub open spec fn watched_count(entries: Seq<(Hash256, TxInMemPoolView)>) -> nat
    decreases entries.len(),
{
    if entries.len() == 0 {
        0
    } else {
        watched_count(entries.drop_last()) + if entries.last().1.watched {
            1nat
        } else {
            0nat
        }
    }
}

/// The entries after the transactions of `xts`, each with its hash, were
/// buffered in order as unwatched transactions from `source`. A later
/// transaction replaces an earlier one with the same hash.
pub open spec fn extended(
    entries: Seq<(Hash256, TxInMemPoolView)>,
    source: TransactionSource,
    xts: Seq<(Hash256, Vec<u8>)>,
) -> Seq<(Hash256, TxInMemPoolView)>
    decreases xts.len(),
{
    if xts.len() == 0 {
        entries
    } else {
        with_entry(
            extended(entries, source, xts.drop_last()),
            xts.last().0,
            TxInMemPoolView { watched: false, tx: xts.last().1@, source, validated_at: 0 },
        )
    }
}

/// The buffer of outstanding transactions, keyed by their hashes.
#[derive(Debug)]
pub struct TxMemPool<Api> {
    api: Api,
    transactions: HashMap256<TxInMemPool>,
}

impl<Api: ChainApi> View for TxMemPool<Api> {
    type V = Map<Hash256, TxInMemPoolView>;

    /// The buffered transactions, each under its hash.
    open spec fn view(&self) -> Map<Hash256, TxInMemPoolView> {
        map_of(self.entries())
    }
}

proof fn lemma_entry_views(entries: Seq<(Hash256, TxInMemPool)>)
    ensures
        keys_of(entry_views(entries)) == keys_of(entries),
        forall|h: Hash256|
            map_of(entries).dom().contains(h) <==> map_of(entry_views(entries)).dom().contains(h),
        forall|h: Hash256| #[trigger]
            map_of(entries).dom().contains(h) ==> map_of(entry_views(entries))[h] == map_of(
                entries,
            )[h]@,
{
    assert(keys_of(entry_views(entries)) =~= keys_of(entries));
}

impl<Api: ChainApi> TxMemPool<Api> {
    /// The buffered transactions with their hashes, in the order in which
    /// their hashes were first buffered.
    pub closed spec fn entries(&self) -> Seq<(Hash256, TxInMemPoolView)> {
        entry_views(self.transactions.entries())
    }

    /// The chain that gives the transactions their hashes.
    pub closed spec fn chain(&self) -> Api {
        self.api
    }

    /// No hash is buffered twice.
    pub open spec fn consistent(&self) -> bool {
        keys_of(self.entries()).no_duplicates()
    }

    /// Brings into a proof what holds of the entries at all times.
    fn note_consistent(&self)
        ensures
            self.consistent(),
            self.transactions.consistent(),
    {
        let _len: usize = self.transactions.len();
        proof {
            lemma_entry_views(self.transactions.entries());
        }
    }

    /// An empty buffer for transactions of the given chain.
    pub fn new(api: Api) -> (pool: TxMemPool<Api>)
        ensures
            pool.consistent(),
            pool.chain() == api,
            pool.entries() == Seq::<(Hash256, TxInMemPoolView)>::empty(),
            pool@ == Map::<Hash256, TxInMemPoolView>::empty(),
    {
        let pool = TxMemPool { api, transactions: HashMap256::new() };
        assert(pool.entries() =~= Seq::<(Hash256, TxInMemPoolView)>::empty());
        assert(pool@ =~= Map::<Hash256, TxInMemPoolView>::empty());
        pool
    }

    /// The body of the transaction with the given hash, if it is buffered.
    pub fn get_by_hash(&self, hash: Hash256) -> (tx: Option<Vec<u8>>)
        ensures
            self.consistent(),
            match tx {
                Some(body) => self@.dom().contains(hash) && body@ == self@[hash].tx,
                None => !self@.dom().contains(hash),
            },
    {
        proof {
            lemma_entry_views(self.transactions.entries());
        }
        match self.transactions.get(hash) {
            Some(entry) => Some(entry.tx()),
            None => None,
        }
    }

    /// The numbers of unwatched and of watched transactions, in that order.
    pub fn unwatched_and_watched_count(&self) -> (counts: (usize, usize))
        ensures
            self.consistent(),
            counts.1 == watched_count(self.entries()),
            counts.0 + counts.1 == self.entries().len(),
    {
        let n = self.transactions.len();
        proof {
            lemma_entry_views(self.transactions.entries());
        }
        let mut watched: usize = 0;
        let mut i: usize = 0;
        while i < n
            invariant
                n == self.transactions.entries().len(),
                i <= n,
                watched <= i,
                watched == watched_count(self.entries().take(i as int)),
            decreases n - i,
        {
            assert(self.entries().take(i + 1).drop_last() =~= self.entries().take(i as int));
            if self.transactions.value_at(i).is_watched() {
                watched += 1;
            }
            i += 1;
        }
        assert(self.entries().take(n as int) =~= self.entries());
        (n - watched, watched)
    }

    fn insert(&mut self, hash: Hash256, entry: TxInMemPool)
        ensures
            final(self).consistent(),
            final(self).chain() == old(self).chain(),
            final(self)@ == old(self)@.insert(hash, entry@),
            final(self).entries() == with_entry(old(self).entries(), hash, entry@),
    {
        self.note_consistent();
        let ghost before = self.transactions.entries();
        proof {
            lemma_entry_views(before);
        }
        let fresh = self.transactions.insert(hash, entry);
        proof {
            let after = self.transactions.entries();
            lemma_entry_views(after);
            if fresh {
                assert(entry_views(after) =~= entry_views(before).push((hash, entry@)));
                lemma_map_of_push(entry_views(before), hash, entry@);
            } else {
                let at = keys_of(before).index_of(hash);
                assert(keys_of(before).contains(hash));
                assert(keys_of(before)[at] == hash);
                assert(entry_views(after) =~= entry_views(before).update(at, (hash, entry@)));
                assert(entry_views(before)[at].0 == hash);
                lemma_map_of_update(entry_views(before), at, entry@);
            }
        }
    }

    /// Buffers `xt`, whose hash is `hash`, as a transaction that nobody
    /// watches. A buffered transaction with the same hash is replaced.
    pub fn push_unwatched_with_hash(
        &mut self,
        hash: Hash256,
        source: TransactionSource,
        xt: Vec<u8>,
    )
        ensures
            final(self).consistent(),
            final(self).chain() == old(self).chain(),
            final(self)@ == old(self)@.insert(
                hash,
                TxInMemPoolView { watched: false, tx: xt@, source, validated_at: 0 },
            ),
            final(self).entries() == with_entry(
                old(self).entries(),
                hash,
                TxInMemPoolView { watched: false, tx: xt@, source, validated_at: 0 },
            ),
    {
        self.insert(hash, TxInMemPool::new_unwatched(source, xt));
    }

    /// Buffers `xt`, whose hash is `hash`, as a watched transaction. A
    /// buffered transaction with the same hash is replaced.
    pub fn push_watched_with_hash(
        &mut self,
        hash: Hash256,
        source: TransactionSource,
        xt: Vec<u8>,
    )
        ensures
            final(self).consistent(),
            final(self).chain() == old(self).chain(),
            final(self)@ == old(self)@.insert(
                hash,
                TxInMemPoolView { watched: true, tx: xt@, source, validated_at: 0 },
            ),
            final(self).entries() == with_entry(
                old(self).entries(),
                hash,
                TxInMemPoolView { watched: true, tx: xt@, source, validated_at: 0 },
            ),
    {
        self.insert(hash, TxInMemPool::new_watched(source, xt));
    }

    /// Buffers the given transactions, each with its hash, in order, as
    /// transactions that nobody watches.
    pub fn extend_unwatched_with_hashes(
        &mut self,
        source: TransactionSource,
        xts: Vec<(Hash256, Vec<u8>)>,
    )
        ensures
            final(self).consistent(),
            final(self).chain() == old(self).chain(),
            final(self).entries() == extended(old(self).entries(), source, xts@),
    {
        self.note_consistent();
        let ghost all = xts@;
        proof {
            lemma_entry_views(self.transactions.entries());
            assert(all.take(0) =~= Seq::<(Hash256, Vec<u8>)>::empty());
        }
        for item in iter: xts
            invariant
                iter.seq() == all,
                self.consistent(),
                self.chain() == old(self).chain(),
                self.entries() == extended(old(self).entries(), source, all.take(iter.index() as int)),
        {
            proof {
                assert(all.take(iter.index() + 1).drop_last() =~= all.take(iter.index() as int));
                assert(all.take(iter.index() + 1).last() == item);
            }
            let (hash, xt) = item;
            self.push_unwatched_with_hash(hash, source, xt);
        }
        assert(all.take(all.len() as int) =~= all);
    }

    /// Buffers `xt` as a transaction that nobody watches, under the hash
    /// that the chain gives it, and returns that hash. A buffered transaction
    /// with the same hash is replaced.
    pub fn push_unwatched(&mut self, source: TransactionSource, xt: Vec<u8>) -> (hash: Hash256)
        ensures
            final(self).consistent(),
            final(self).chain() == old(self).chain(),
            hash == old(self).chain().spec_hash_and_length(xt@).0,
            final(self)@ == old(self)@.insert(
                hash,
                TxInMemPoolView { watched: false, tx: xt@, source, validated_at: 0 },
            ),
            final(self).entries() == with_entry(
                old(self).entries(),
                hash,
                TxInMemPoolView { watched: false, tx: xt@, source, validated_at: 0 },
            ),
    {
        let hash = self.api.hash_and_length(&xt).0;
        self.push_unwatched_with_hash(hash, source, xt);
        hash
    }

    /// Buffers `xt` as a watched transaction, under the hash that the chain
    /// gives it, and returns that hash. A buffered transaction with the same
    /// hash is replaced.
    pub fn push_watched(&mut self, source: TransactionSource, xt: Vec<u8>) -> (hash: Hash256)
        ensures
            final(self).consistent(),
            final(self).chain() == old(self).chain(),
            hash == old(self).chain().spec_hash_and_length(xt@).0,
            final(self)@ == old(self)@.insert(
                hash,
                TxInMemPoolView { watched: true, tx: xt@, source, validated_at: 0 },
            ),
            final(self).entries() == with_entry(
                old(self).entries(),
                hash,
                TxInMemPoolView { watched: true, tx: xt@, source, validated_at: 0 },
            ),
    {
        let hash = self.api.hash_and_length(&xt).0;
        self.push_watched_with_hash(hash, source, xt);
        hash
    }

    /// Buffers the given transactions, in order, as transactions that nobody
    /// watches, each under the hash that the chain gives it. Returns the
    /// transactions' hashes, in the same order.
    pub fn extend_unwatched(&mut self, source: TransactionSource, xts: Vec<Vec<u8>>) -> (hashes:
        Vec<Hash256>)
        ensures
            final(self).consistent(),
            final(self).chain() == old(self).chain(),
            hashes@.len() == xts@.len(),
            forall|i: int|
                0 <= i < xts@.len() ==> #[trigger] hashes@[i] == old(
                    self,
                ).chain().spec_hash_and_length(xts@[i]@).0,
            final(self).entries() == extended(old(self).entries(), source, hashes@.zip_with(xts@)),
    {
        self.note_consistent();
        let ghost all = xts@;
        let mut hashes: Vec<Hash256> = Vec::new();
        proof {
            lemma_entry_views(self.transactions.entries());
            assert(hashes@.zip_with(all.take(0)) =~= Seq::<(Hash256, Vec<u8>)>::empty());
        }
        for xt in iter: xts
            invariant
                iter.seq() == all,
                hashes@.len() == iter.index(),
                forall|i: int|
                    0 <= i < iter.index() ==> #[trigger] hashes@[i] == old(
                        self,
                    ).chain().spec_hash_and_length(all[i]@).0,
                self.consistent(),
                self.chain() == old(self).chain(),
                self.entries() == extended(
                    old(self).entries(),
                    source,
                    hashes@.zip_with(all.take(iter.index() as int)),
                ),
        {
            let ghost before = hashes@;
            let hash = self.push_unwatched(source, xt);
            hashes.push(hash);
            proof {
                let pairs = hashes@.zip_with(all.take(iter.index() + 1));
                assert(pairs.drop_last() =~= before.zip_with(all.take(iter.index() as int)));
                assert(pairs.last() == (hash, xt));
            }
        }
        assert(all.take(all.len() as int) =~= all);
        hashes
    }

    /// Takes out the transaction with the given hash, if it is buffered.
    fn remove(&mut self, hash: Hash256)
        ensures
            final(self).consistent(),
            final(self).chain() == old(self).chain(),
            final(self).transactions.consistent(),
            final(self)@ == old(self)@.remove(hash),
            final(self).entries() == if old(self)@.dom().contains(hash) {
                old(self).entries().remove(position_of(old(self).entries(), hash))
            } else {
                old(self).entries()
            },
            same_order(keys_of(old(self).entries()), keys_of(final(self).entries())),
    {
        self.note_consistent();
        let ghost before = self.transactions.entries();
        proof {
            lemma_entry_views(before);
            lemma_entries_are_mapped(entry_views(before));
            lemma_same_order_reflexive(keys_of(entry_views(before)));
        }
        match self.transactions.position(hash) {
            Some(at) => {
                self.transactions.take_at(at);
                proof {
                    let after = self.transactions.entries();
                    assert(entry_views(after) =~= entry_views(before).remove(at as int));
                    assert(keys_of(entry_views(before))[at as int] == hash);
                    lemma_map_of_remove(entry_views(before), at as int);
                    lemma_remove_keeps_order(keys_of(entry_views(before)), at as int);
                }
            },
            None => {
                assert(self@.remove(hash) =~= self@);
            },
        }
    }

    /// Marks the transaction with the given hash as revalidated at block
    /// number `number`, if it is buffered and due for revalidation at that
    /// block. It keeps its place. Returns whether it was marked.
    fn mark_validated_if_due(&mut self, hash: Hash256, number: u64) -> (marked: bool)
        ensures
            final(self).consistent(),
            final(self).chain() == old(self).chain(),
            keys_of(final(self).entries()) == keys_of(old(self).entries()),
            marked == (old(self)@.dom().contains(hash) && is_due(old(self)@[hash], number)),
            final(self)@ == if marked {
                old(self)@.insert(
                    hash,
                    TxInMemPoolView { validated_at: number, ..old(self)@[hash] },
                )
            } else {
                old(self)@
            },
    {
        self.note_consistent();
        let ghost before = self.transactions.entries();
        proof {
            lemma_entry_views(before);
            lemma_entries_are_mapped(entry_views(before));
        }
        match self.transactions.position(hash) {
            Some(at) => {
                assert(entry_views(before)[at as int].0 == hash);
                let validated_at = self.transactions.value_at(at).validated_at();
                if number > TXMEMPOOL_REVALIDATION_PERIOD && validated_at < number
                    - TXMEMPOOL_REVALIDATION_PERIOD {
                    let (key, entry) = self.transactions.take_at(at);
                    let entry = entry.revalidated_at(number);
                    self.transactions.put_at(at, key, entry);
                    proof {
                        let after = self.transactions.entries();
                        assert(after =~= before.update(at as int, (key, entry)));
                        assert(entry_views(after) =~= entry_views(before).update(
                            at as int,
                            (key, entry@),
                        ));
                        lemma_map_of_update(entry_views(before), at as int, entry@);
                    }
                    true
                } else {
                    false
                }
            },
            None => false,
        }
    }

    fn clone_where(&self, watched: bool) -> (snapshot: HashMap256<TxInMemPool>)
        ensures
            self.consistent(),
            is_snapshot(self@, watched, snapshot@),
    {
        let n = self.transactions.len();
        proof {
            lemma_entry_views(self.transactions.entries());
            lemma_entries_are_mapped(self.transactions.entries());
        }
        let mut snapshot: HashMap256<TxInMemPool> = HashMap256::new();
        let mut i: usize = 0;
        while i < n
            invariant
                n == self.transactions.entries().len(),
                self.transactions.consistent(),
                i <= n,
                forall|h: Hash256|
                    snapshot@.dom().contains(h) <==> (exists|j: int|
                        0 <= j < i && #[trigger] self.transactions.entries()[j].0 == h
                            && self.transactions.entries()[j].1@.watched == watched),
                forall|h: Hash256| #[trigger]
                    snapshot@.dom().contains(h) ==> self.transactions@.dom().contains(h)
                        && snapshot@[h]@ == self.transactions@[h]@,
            decreases n - i,
        {
            let entry = self.transactions.value_at(i);
            let hash = self.transactions.key_at(i);
            if entry.is_watched() == watched {
                snapshot.insert(hash, entry.duplicate());
            }
            i += 1;
        }
        proof {
            assert forall|h: Hash256|
                snapshot@.dom().contains(h) <==> (self@.dom().contains(h) && self@[h].watched
                    == watched) by {
                if self@.dom().contains(h) && self@[h].watched == watched {
                    let j = keys_of(self.transactions.entries()).index_of(h);
                    assert(keys_of(self.transactions.entries())[j] == h);
                    assert(self.transactions.entries()[j].0 == h);
                }
            }
        }
        snapshot
    }

    /// A copy of every buffered transaction that nobody watches, under its hash.
    pub fn clone_unwatched(&self) -> (snapshot: HashMap256<TxInMemPool>)
        ensures
            self.consistent(),
            is_snapshot(self@, false, snapshot@),
    {
        self.clone_where(false)
    }

    /// A copy of every buffered transaction that is watched, under its hash.
    pub fn clone_watched(&self) -> (snapshot: HashMap256<TxInMemPool>)
        ensures
            self.consistent(),
            is_snapshot(self@, true, snapshot@),
    {
        self.clone_where(true)
    }

    /// Takes out every buffered transaction whose body is `xt`.
    pub fn remove_watched(&mut self, xt: &Vec<u8>)
        ensures
            final(self).consistent(),
            final(self).chain() == old(self).chain(),
            final(self)@ == old(self)@.remove_keys(
                Set::new(|h: Hash256| old(self)@.dom().contains(h) && old(self)@[h].tx == xt@),
            ),
            same_order(keys_of(old(self).entries()), keys_of(final(self).entries())),
    {
        self.note_consistent();
        proof {
            lemma_entry_views(self.transactions.entries());
            lemma_same_order_reflexive(keys_of(self.entries()));
        }
        let mut i: usize = 0;
        while i < self.transactions.len()
            invariant
                self.consistent(),
                self.chain() == old(self).chain(),
                self.transactions.consistent(),
                i <= self.transactions.entries().len(),
                forall|h: Hash256| #[trigger]
                    self@.dom().contains(h) ==> old(self)@.dom().contains(h) && self@[h] == old(
                        self,
                    )@[h],
                forall|h: Hash256|
                    old(self)@.dom().contains(h) && old(self)@[h].tx != xt@
                        ==> #[trigger] self@.dom().contains(h),
                forall|j: int| 0 <= j < i ==> (#[trigger] self.entries()[j]).1.tx != xt@,
                same_order(keys_of(old(self).entries()), keys_of(self.entries())),
            decreases self.transactions.entries().len() - i,
        {
            let ghost before = self.transactions.entries();
            let ghost keys_before = keys_of(self.entries());
            let ghost before_map = self@;
            proof {
                lemma_entry_views(before);
                lemma_entries_are_mapped(entry_views(before));
            }
            let entry = self.transactions.value_at(i);
            if same_bytes(&entry.tx, xt) {
                let hash = self.transactions.key_at(i);
                assert(entry_views(before)[i as int].0 == hash);
                assert(before_map[hash].tx == xt@);
                assert(keys_of(entry_views(before))[i as int] == hash);
                self.remove(hash);
                proof {
                    lemma_same_order_transitive(
                        keys_of(old(self).entries()),
                        keys_before,
                        keys_of(self.entries()),
                    );
                }
            } else {
                assert(self.entries()[i as int].1.tx != xt@);
                i += 1;
            }
        }
        proof {
            lemma_entries_are_mapped(self.entries());
            let gone = Set::new(
                |h: Hash256| old(self)@.dom().contains(h) && old(self)@[h].tx == xt@,
            );
            assert(self@ =~= old(self)@.remove_keys(gone)) by {
                assert forall|h: Hash256| self@.dom().contains(h) implies !gone.contains(h) by {
                    let j = keys_of(self.entries()).index_of(h);
                    assert(keys_of(self.entries())[j] == h);
                    assert(self.entries()[j].0 == h);
                    assert(self@[h] == self.entries()[j].1);
                }
            }
        }
    }

    /// The transactions to revalidate at the finalized block `finalized`.
    ///
    /// A transaction is due when its last revalidation lies more than
    /// [`TXMEMPOOL_REVALIDATION_PERIOD`] blocks behind the finalized block.
    /// The batch holds the due transactions that were revalidated longest
    /// ago, oldest first, at most [`TXMEMPOOL_MAX_REVALIDATION_BATCH_SIZE`]
    /// of them; among transactions of the same age the one buffered earlier
    /// comes first.
    pub fn revalidation_batch(&self, finalized: &HashAndNumber) -> (batch: Vec<RevalidationRequest>)
        ensures
            self.consistent(),
            is_revalidation_batch(self.entries(), finalized.number, batch@),
    {
        let n = self.transactions.len();
        let ghost entries = self.entries();
        let number = finalized.number;
        proof {
            lemma_entry_views(self.transactions.entries());
            lemma_entries_are_mapped(entries);
        }
        let mut items: Vec<(u64, usize)> = Vec::new();
        let mut i: usize = 0;
        while i < n
            invariant
                n == self.transactions.entries().len(),
                entries == self.entries(),
                i <= n,
                forall|m: int|
                    0 <= m < items@.len() ==> (#[trigger] items@[m]).1 < i && is_due(
                        entries[items@[m].1 as int].1,
                        number,
                    ) && items@[m].0 == entries[items@[m].1 as int].1.validated_at,
                forall|a: int, b: int|
                    0 <= a < b < items@.len() ==> (#[trigger] items@[a]).1 < (
                    #[trigger] items@[b]).1,
                forall|p: int|
                    0 <= p < i && is_due(#[trigger] entries[p].1, number) ==> items@.contains(
                        (entries[p].1.validated_at, p as usize),
                    ),
            decreases n - i,
        {
            let validated_at = self.transactions.value_at(i).validated_at();
            let ghost before = items@;
            if number > TXMEMPOOL_REVALIDATION_PERIOD && validated_at < number
                - TXMEMPOOL_REVALIDATION_PERIOD {
                items.push((validated_at, i));
                proof {
                    assert(items@[before.len() as int] == (validated_at, i));
                    assert forall|p: int|
                        0 <= p < i + 1 && is_due(
                            #[trigger] entries[p].1,
                            number,
                        ) implies items@.contains((entries[p].1.validated_at, p as usize)) by {
                        if p < i {
                            let m = choose|m: int|
                                0 <= m < before.len() && before[m] == (
                                    entries[p].1.validated_at,
                                    p as usize,
                                );
                            assert(items@[m] == before[m]);
                        }
                    }
                }
            }
            i += 1;
        }
        let ghost unsorted = items@;
        let sorted = sorted_by_age(items);
        proof {
            unsorted.lemma_multiset_has_no_duplicates();
            sorted@.lemma_multiset_has_no_duplicates_conv();
            assert forall|m: int| 0 <= m < sorted@.len() implies unsorted.contains(
                #[trigger] sorted@[m],
            ) by {
                to_multiset_contains(sorted@, sorted@[m]);
                to_multiset_contains(unsorted, sorted@[m]);
                assert(sorted@.contains(sorted@[m]));
            }
            assert forall|p: int|
                0 <= p < n && is_due(#[trigger] entries[p].1, number) implies sorted@.contains(
                (entries[p].1.validated_at, p as usize),
            ) by {
                to_multiset_contains(sorted@, (entries[p].1.validated_at, p as usize));
                to_multiset_contains(unsorted, (entries[p].1.validated_at, p as usize));
            }
            assert forall|k: int, l: int| 0 <= k < l < sorted@.len() implies precedes(
                entries,
                (#[trigger] sorted@[k]).1 as int,
                (#[trigger] sorted@[l]).1 as int,
            ) by {
                assert(unsorted.contains(sorted@[k]));
                assert(unsorted.contains(sorted@[l]));
                if sorted@[k].0 == sorted@[l].0 {
                    let (a, b) = choose|a: int, b: int|
                        0 <= a < b < unsorted.len() && unsorted[a] == sorted@[k] && unsorted[b]
                            == sorted@[l];
                    assert(unsorted[a].1 < unsorted[b].1);
                }
            }
        }
        let limit = if sorted.len() < TXMEMPOOL_MAX_REVALIDATION_BATCH_SIZE {
            sorted.len()
        } else {
            TXMEMPOOL_MAX_REVALIDATION_BATCH_SIZE
        };
        let mut batch: Vec<RevalidationRequest> = Vec::new();
        let mut k: usize = 0;
        while k < limit
            invariant
                n == self.transactions.entries().len(),
                entries == self.entries(),
                self.transactions.consistent(),
                keys_of(entries) == keys_of(self.transactions.entries()),
                keys_of(entries).no_duplicates(),
                limit <= sorted@.len(),
                k <= limit,
                batch@.len() == k,
                forall|m: int| 0 <= m < sorted@.len() ==> unsorted.contains(#[trigger] sorted@[m]),
                forall|m: int|
                    0 <= m < unsorted.len() ==> (#[trigger] unsorted[m]).1 < n && is_due(
                        entries[unsorted[m].1 as int].1,
                        number,
                    ) && unsorted[m].0 == entries[unsorted[m].1 as int].1.validated_at,
                forall|m: int|
                    0 <= m < k ==> is_request_for(
                        #[trigger] batch@[m],
                        entries,
                        sorted@[m].1 as int,
                    ),
            decreases limit - k,
        {
            let item = sorted[k];
            assert(unsorted.contains(item));
            let at = item.1;
            let entry = self.transactions.value_at(at);
            let hash = self.transactions.key_at(at);
            batch.push(RevalidationRequest { hash, source: entry.source(), tx: entry.tx() });
            proof {
                lemma_entries_are_mapped(entries);
                assert(keys_of(entries)[at as int] == hash);
            }
            k += 1;
        }
        proof {
            let keys = keys_of(entries);
            assert forall|m: int| 0 <= m < batch@.len() implies keys.contains(
                (#[trigger] batch@[m]).hash,
            ) && position_of(entries, batch@[m].hash) == sorted@[m].1 by {
                assert(is_request_for(batch@[m], entries, sorted@[m].1 as int));
                assert(unsorted.contains(sorted@[m]));
                assert(keys[sorted@[m].1 as int] == batch@[m].hash);
            }
            assert forall|p: int|
                0 <= p < entries.len() && is_due(#[trigger] entries[p].1, number) && !(
                exists|m: int| 0 <= m < batch@.len() && (#[trigger] batch@[m]).hash
                    == entries[p].0) implies batch@.len() == TXMEMPOOL_MAX_REVALIDATION_BATCH_SIZE
                && forall|m: int|
                0 <= m < batch@.len() ==> precedes(
                    entries,
                    position_of(entries, (#[trigger] batch@[m]).hash),
                    p,
                ) by {
                let item = (entries[p].1.validated_at, p as usize);
                assert(sorted@.contains(item));
                let q = choose|q: int| 0 <= q < sorted@.len() && sorted@[q] == item;
                if q < batch@.len() {
                    assert(is_request_for(batch@[q], entries, sorted@[q].1 as int));
                    assert(batch@[q].hash == entries[p].0);
                }
                assert forall|m: int| 0 <= m < batch@.len() implies precedes(
                    entries,
                    position_of(entries, (#[trigger] batch@[m]).hash),
                    p,
                ) by {
                    assert(precedes(entries, sorted@[m].1 as int, sorted@[q].1 as int));
                }
            }
            assert forall|a: int, b: int| 0 <= a < b < batch@.len() implies precedes(
                entries,
                position_of(entries, (#[trigger] batch@[a]).hash),
                position_of(entries, (#[trigger] batch@[b]).hash),
            ) by {
                assert(precedes(entries, sorted@[a].1 as int, sorted@[b].1 as int));
            }
            assert forall|m: int| 0 <= m < batch@.len() implies is_request_for(
                #[trigger] batch@[m],
                entries,
                position_of(entries, batch@[m].hash),
            ) && is_due(entries[position_of(entries, batch@[m].hash)].1, number) by {
                assert(unsorted.contains(sorted@[m]));
            }
        }
        batch
    }

    /// Records the outcome of a revalidation at the finalized block
    /// `finalized`. A result counts when its transaction is buffered and due
    /// for revalidation at that block; a result for a transaction that is
    /// not, and a second result for the same transaction, are passed over.
    /// Every transaction with a result that counts is marked as revalidated
    /// at the finalized block, whatever the result says. Returns the hashes
    /// of the results that count and call for eviction, in the order of the
    /// results.
    pub fn revalidate(
        &mut self,
        finalized: &HashAndNumber,
        results: &Vec<(Hash256, ValidationResult)>,
    ) -> (invalid: Vec<Hash256>)
        ensures
            final(self).consistent(),
            final(self).chain() == old(self).chain(),
            keys_of(final(self).entries()) == keys_of(old(self).entries()),
            final(self)@ == revalidated(
                old(self)@,
                revalidated_hashes(old(self)@, results@, finalized.number),
                finalized.number,
            ),
            invalid@ == invalid_hashes(old(self)@, results@, finalized.number),
    {
        self.note_consistent();
        let number = finalized.number;
        proof {
            assert(self@ =~= revalidated(
                self@,
                revalidated_hashes(self@, results@.take(0), number),
                number,
            ));
            assert(invalid_hashes(self@, results@.take(0), number) =~= Seq::<Hash256>::empty());
        }
        let mut invalid: Vec<Hash256> = Vec::new();
        let mut i: usize = 0;
        while i < results.len()
            invariant
                i <= results.len(),
                number == finalized.number,
                self.consistent(),
                self.chain() == old(self).chain(),
                keys_of(self.entries()) == keys_of(old(self).entries()),
                self@ == revalidated(
                    old(self)@,
                    revalidated_hashes(old(self)@, results@.take(i as int), number),
                    number,
                ),
                invalid@ == invalid_hashes(old(self)@, results@.take(i as int), number),
            decreases results.len() - i,
        {
            let hash = results[i].0;
            let ghost done = results@.take(i as int);
            let ghost next = results@.take(i + 1);
            let ghost start = old(self)@;
            proof {
                assert(next.drop_last() =~= done);
                assert(next.last() == results@[i as int]);
                assert forall|h: Hash256|
                    result_hashes(next).contains(h) <==> (h == hash || result_hashes(
                        done,
                    ).contains(h)) by {
                    if result_hashes(done).contains(h) {
                        let j = choose|j: int| 0 <= j < done.len() && done[j].0 == h;
                        assert(next[j].0 == h);
                    }
                    if h == hash {
                        assert(next[i as int].0 == h);
                    }
                    if result_hashes(next).contains(h) && h != hash {
                        let j = choose|j: int| 0 <= j < next.len() && next[j].0 == h;
                        assert(done[j].0 == h);
                    }
                }
                assert(result_hashes(done).contains(hash) <==> !(forall|j: int|
                    0 <= j < i ==> (#[trigger] next[j]).0 != hash)) by {
                    if result_hashes(done).contains(hash) {
                        let j = choose|j: int| 0 <= j < done.len() && done[j].0 == hash;
                        assert(next[j].0 == hash);
                    }
                    if exists|j: int| 0 <= j < i && (#[trigger] next[j]).0 == hash {
                        let j = choose|j: int| 0 <= j < i && (#[trigger] next[j]).0 == hash;
                        assert(done[j].0 == hash);
                    }
                }
            }
            let marked = self.mark_validated_if_due(hash, number);
            if marked && !is_kept_result(&results[i].1) {
                invalid.push(hash);
            }
            proof {
                assert(marked == counts(start, next, number, i as int));
                assert(self@ =~= revalidated(
                    start,
                    revalidated_hashes(start, next, number),
                    number,
                ));
            }
            i += 1;
        }
        assert(results@.take(results@.len() as int) =~= results@);
        invalid
    }

    /// Takes out the given transactions, which were finalized.
    pub fn purge_finalized_transactions(&mut self, finalized_xts: &Vec<Hash256>)
        ensures
            final(self).consistent(),
            final(self).chain() == old(self).chain(),
            final(self)@ == old(self)@.remove_keys(finalized_xts@.to_set()),
            same_order(keys_of(old(self).entries()), keys_of(final(self).entries())),
    {
        self.note_consistent();
        proof {
            lemma_entry_views(self.transactions.entries());
            lemma_same_order_reflexive(keys_of(self.entries()));
            assert(self@ =~= self@.remove_keys(finalized_xts@.take(0).to_set()));
        }
        let mut i: usize = 0;
        while i < finalized_xts.len()
            invariant
                i <= finalized_xts.len(),
                self.consistent(),
                self.chain() == old(self).chain(),
                self@ == old(self)@.remove_keys(finalized_xts@.take(i as int).to_set()),
                same_order(keys_of(old(self).entries()), keys_of(self.entries())),
            decreases finalized_xts.len() - i,
        {
            let ghost keys_before = keys_of(self.entries());
            self.remove(finalized_xts[i]);
            proof {
                lemma_same_order_transitive(
                    keys_of(old(self).entries()),
                    keys_before,
                    keys_of(self.entries()),
                );
                lemma_prefix_grows(finalized_xts@, i as int);
                assert(self@ =~= old(self)@.remove_keys(
                    finalized_xts@.take(i + 1).to_set(),
                ));
            }
            i += 1;
        }
        assert(finalized_xts@.take(finalized_xts@.len() as int) =~= finalized_xts@);
    }

    /// Applies the outcome of a revalidation at the finalized block
    /// `finalized`: the transactions with a result that counts are marked as
    /// revalidated at that block, those whose result calls for eviction are
    /// taken out, and `listener` is told to invalidate the evicted ones, in
    /// the order of their results. Returns what became of each of these
    /// commands.
    pub fn purge_transactions<S>(
        &mut self,
        finalized: &HashAndNumber,
        results: &Vec<(Hash256, ValidationResult)>,
        listener: &mut MultiViewListener<S>,
    ) -> (report: Vec<Delivery>)
        ensures
            final(self).consistent(),
            final(self).chain() == old(self).chain(),
            final(self)@ == purged(old(self)@, results@, finalized.number),
            same_order(keys_of(old(self).entries()), keys_of(final(self).entries())),
            deliveries_fit(
                old(listener)@,
                invalid_hashes(old(self)@, results@, finalized.number),
                report@,
            ),
            final(listener)@ == after_deliveries(
                old(listener)@,
                invalid_hashes(old(self)@, results@, finalized.number),
                report@,
            ),
            final(listener).controllers() == old(listener).controllers().restrict(
                final(listener)@,
            ),
            final(listener).queued() == old(listener).queued() + queued_invalidations::<S>(
                invalid_hashes(old(self)@, results@, finalized.number),
                report@,
            ),
    {
        let invalid_hashes = self.revalidate(finalized, results);
        self.purge_finalized_transactions(&invalid_hashes);
        listener.invalidate_transactions(invalid_hashes)
    }
}

/// What the validation of one buffered transaction is asked with.
#[derive(Debug)]
pub struct RevalidationRequest {
    /// The hash of the transaction.
    pub hash: Hash256,
    /// Where the transaction came from.
    pub source: TransactionSource,
    /// The body of the transaction.
    pub tx: Vec<u8>,
}

/// Whether `snapshot` holds a copy of exactly those transactions of `pool`
/// whose watched flag is `watched`.
pub open spec fn is_snapshot(
    pool: Map<Hash256, TxInMemPoolView>,
    watched: bool,
    snapshot: Map<Hash256, TxInMemPool>,
) -> bool {
    &&& forall|h: Hash256|
        snapshot.dom().contains(h) <==> (pool.dom().contains(h) && pool[h].watched == watched)
    &&& forall|h: Hash256| #[trigger] snapshot.dom().contains(h) ==> snapshot[h]@ == pool[h]
}

/// Whether a transaction last revalidated as `entry` says is due for
/// revalidation at a finalized block with number `number`.
pub open spec fn is_due(entry: TxInMemPoolView, number: u64) -> bool {
    entry.validated_at + TXMEMPOOL_REVALIDATION_PERIOD < number
}

/// The place of the transaction with hash `hash` among `entries`.
pub open spec fn position_of(entries: Seq<(Hash256, TxInMemPoolView)>, hash: Hash256) -> int {
    keys_of(entries).index_of(hash)
}

/// Whether the entry at place `p` is revalidated before the entry at place
/// `q`: it was revalidated longer ago, or as long ago and buffered earlier.
pub open spec fn precedes(entries: Seq<(Hash256, TxInMemPoolView)>, p: int, q: int) -> bool {
    entries[p].1.validated_at < entries[q].1.validated_at || (entries[p].1.validated_at
        == entries[q].1.validated_at && p < q)
}

/// Whether `request` asks for the validation of the entry at place `p`.
pub open spec fn is_request_for(
    request: RevalidationRequest,
    entries: Seq<(Hash256, TxInMemPoolView)>,
    p: int,
) -> bool {
    &&& 0 <= p < entries.len()
    &&& request.hash == entries[p].0
    &&& request.source == entries[p].1.source
    &&& request.tx@ == entries[p].1.tx
}

/// Whether `batch` is the batch to revalidate at a finalized block with
/// number `number`: its requests are for due entries, in the order of
/// revalidation, and an entry that is due and left out comes after all of
/// them, which happens only when the batch is full.
pub open spec fn is_revalidation_batch(
    entries: Seq<(Hash256, TxInMemPoolView)>,
    number: u64,
    batch: Seq<RevalidationRequest>,
) -> bool {
    &&& batch.len() <= TXMEMPOOL_MAX_REVALIDATION_BATCH_SIZE
    &&& forall|k: int|
        0 <= k < batch.len() ==> keys_of(entries).contains((#[trigger] batch[k]).hash)
            && is_request_for(batch[k], entries, position_of(entries, batch[k].hash)) && is_due(
            entries[position_of(entries, batch[k].hash)].1,
            number,
        )
    &&& forall|k: int, l: int|
        0 <= k < l < batch.len() ==> precedes(
            entries,
            position_of(entries, (#[trigger] batch[k]).hash),
            position_of(entries, (#[trigger] batch[l]).hash),
        )
    &&& forall|p: int|
        0 <= p < entries.len() && is_due(#[trigger] entries[p].1, number) && !(exists|k: int|
            0 <= k < batch.len() && (#[trigger] batch[k]).hash == entries[p].0) ==> batch.len()
            == TXMEMPOOL_MAX_REVALIDATION_BATCH_SIZE && forall|k: int|
            0 <= k < batch.len() ==> precedes(
                entries,
                position_of(entries, (#[trigger] batch[k]).hash),
                p,
            )
}

/// Whether a transaction with this validation result stays in the buffer: it
/// does when it is valid, and when it is invalid only because it is not valid
/// yet. Every other verdict, and the lack of a verdict, calls for eviction.
pub open spec fn is_kept(result: ValidationResult) -> bool {
    match result {
        Ok(Ok(_)) => true,
        Ok(Err(TransactionValidityError::Invalid(InvalidTransaction::Future))) => true,
        _ => false,
    }
}

/// Whether a transaction with this validation result stays in the buffer.
pub fn is_kept_result(result: &ValidationResult) -> (kept: bool)
    ensures
        kept == is_kept(*result),
{
    match result {
        Ok(Ok(_)) => true,
        Ok(Err(TransactionValidityError::Invalid(InvalidTransaction::Future))) => true,
        _ => false,
    }
}

/// The hashes that have a result among `results`.
pub open spec fn result_hashes(results: Seq<(Hash256, ValidationResult)>) -> Set<Hash256> {
    Set::new(|h: Hash256| exists|i: int| 0 <= i < results.len() && (#[trigger] results[i]).0 == h)
}

/// Whether result number `i` counts at a finalized block with number
/// `number`: its transaction is buffered in `pool` and due for revalidation,
/// and no result before it is for the same transaction.
pub open spec fn counts(
    pool: Map<Hash256, TxInMemPoolView>,
    results: Seq<(Hash256, ValidationResult)>,
    number: u64,
    i: int,
) -> bool {
    &&& 0 <= i < results.len()
    &&& pool.dom().contains(results[i].0)
    &&& is_due(pool[results[i].0], number)
    &&& forall|j: int| 0 <= j < i ==> (#[trigger] results[j]).0 != results[i].0
}

/// The transactions of `pool` that are revalidated: those that are due and
/// have a result.
pub open spec fn revalidated_hashes(
    pool: Map<Hash256, TxInMemPoolView>,
    results: Seq<(Hash256, ValidationResult)>,
    number: u64,
) -> Set<Hash256> {
    Set::new(
        |h: Hash256|
            pool.dom().contains(h) && is_due(pool[h], number) && result_hashes(results).contains(
                h,
            ),
    )
}

/// The hashes of the results that count and call for eviction, in the order
/// of the results.
pub open spec fn invalid_hashes(
    pool: Map<Hash256, TxInMemPoolView>,
    results: Seq<(Hash256, ValidationResult)>,
    number: u64,
) -> Seq<Hash256>
    decreases results.len(),
{
    if results.len() == 0 {
        Seq::empty()
    } else if counts(pool, results, number, results.len() - 1) && !is_kept(results.last().1) {
        invalid_hashes(pool, results.drop_last(), number).push(results.last().0)
    } else {
        invalid_hashes(pool, results.drop_last(), number)
    }
}

/// The buffer after the transactions with the given hashes were marked as
/// revalidated at block number `number`.
pub open spec fn revalidated(
    pool: Map<Hash256, TxInMemPoolView>,
    hashes: Set<Hash256>,
    number: u64,
) -> Map<Hash256, TxInMemPoolView> {
    Map::new(
        |h: Hash256| pool.dom().contains(h),
        |h: Hash256|
            if hashes.contains(h) {
                TxInMemPoolView { validated_at: number, ..pool[h] }
            } else {
                pool[h]
            },
    )
}

/// The buffer after the outcome of a revalidation at block number `number`
/// was applied: the revalidated transactions are marked, and those whose
/// result calls for eviction are gone.
pub open spec fn purged(
    pool: Map<Hash256, TxInMemPoolView>,
    results: Seq<(Hash256, ValidationResult)>,
    number: u64,
) -> Map<Hash256, TxInMemPoolView> {
    revalidated(pool, revalidated_hashes(pool, results, number), number).remove_keys(
        invalid_hashes(pool, results, number).to_set(),
    )
}

/// `Itertools::sorted_by_key`, called with the age as the key, sorts the items
/// by age in ascending order and keeps items of the same age in the order in
/// which they came: the result holds the same items as often as `items` does,
/// ages never fall from one place to the next, and of two items of the same
/// age the one that stands first in the result stood first in `items`.
#[verifier::external_body]
fn sorted_by_age(items: Vec<(u64, usize)>) -> (sorted: Vec<(u64, usize)>)
    ensures
        sorted@.to_multiset() == items@.to_multiset(),
        forall|i: int, j: int|
            0 <= i < j < sorted@.len() ==> (#[trigger] sorted@[i]).0 <= (#[trigger] sorted@[j]).0,
        forall|i: int, j: int|
            0 <= i < j < sorted@.len() && (#[trigger] sorted@[i]).0 == (#[trigger] sorted@[j]).0
                ==> exists|a: int, b: int|
                0 <= a < b < items@.len() && #[trigger] items@[a] == sorted@[i]
                    && #[trigger] items@[b] == sorted@[j],
{
    items.into_iter().sorted_by_key(|item| item.0).collect()
}

} // verus!
