//! What holds of the buffer after a revalidation.

use crate::hash_map::{keys_of, lemma_entries_are_mapped, map_of};
use crate::primitives::Hash256;
use crate::transaction_validity::ValidationResult;
use crate::tx_mem_pool::{
    counts, invalid_hashes, is_due, is_kept, is_revalidation_batch, position_of, precedes,
    purged, result_hashes, RevalidationRequest, TxInMemPoolView,
    TXMEMPOOL_MAX_REVALIDATION_BATCH_SIZE,
};
use vstd::prelude::*;
use vstd::set_lib::{lemma_int_range, lemma_len_subset, set_int_range};

verus! {

/// A hash is among the invalid ones exactly when its result that counts calls
/// for eviction.
pub proof fn lemma_invalid_hashes_are_evicting_results(
    pool: Map<Hash256, TxInMemPoolView>,
    results: Seq<(Hash256, ValidationResult)>,
    number: u64,
    hash: Hash256,
)
    ensures
        invalid_hashes(pool, results, number).contains(hash) <==> (exists|i: int|
            #[trigger] counts(pool, results, number, i) && results[i].0 == hash && !is_kept(
                results[i].1,
            )),
    decreases results.len(),
{
    if results.len() > 0 {
        let shorter = results.drop_last();
        lemma_invalid_hashes_are_evicting_results(pool, shorter, number, hash);
        let before = invalid_hashes(pool, shorter, number);
        let after = invalid_hashes(pool, results, number);
        let last = results.len() - 1;
        let evicts_last = counts(pool, results, number, last) && !is_kept(results[last].1);
        assert forall|i: int| 0 <= i < last implies counts(pool, shorter, number, i) == counts(
            pool,
            results,
            number,
            i,
        ) by {
            assert(shorter[i] == results[i]);
            if counts(pool, results, number, i) {
                assert forall|j: int| 0 <= j < i implies (#[trigger] shorter[j]).0
                    != shorter[i].0 by {
                    assert(results[j].0 != results[i].0);
                }
            }
            if counts(pool, shorter, number, i) {
                assert forall|j: int| 0 <= j < i implies (#[trigger] results[j]).0
                    != results[i].0 by {
                    assert(shorter[j].0 != shorter[i].0);
                }
            }
        }
        if after.contains(hash) {
            let j = choose|j: int| 0 <= j < after.len() && after[j] == hash;
            if j < before.len() {
                assert(before[j] == hash);
                assert(before.contains(hash));
                let i = choose|i: int|
                    #[trigger] counts(pool, shorter, number, i) && shorter[i].0 == hash
                        && !is_kept(shorter[i].1);
                assert(counts(pool, results, number, i) && results[i].0 == hash && !is_kept(
                    results[i].1,
                ));
            } else {
                assert(counts(pool, results, number, last) && results[last].0 == hash);
            }
        }
        if exists|i: int|
            #[trigger] counts(pool, results, number, i) && results[i].0 == hash && !is_kept(
                results[i].1,
            ) {
            let i = choose|i: int|
                #[trigger] counts(pool, results, number, i) && results[i].0 == hash && !is_kept(
                    results[i].1,
                );
            if i == last {
                assert(after[before.len() as int] == hash);
            } else {
                assert(counts(pool, shorter, number, i) && shorter[i].0 == hash && !is_kept(
                    shorter[i].1,
                ));
                assert(before.contains(hash));
                let j = choose|j: int| 0 <= j < before.len() && before[j] == hash;
                assert(after[j] == hash);
            }
        }
    }
}

/// Of the results for one transaction, one is the first.
pub proof fn lemma_first_result(results: Seq<(Hash256, ValidationResult)>, hash: Hash256)
    requires
        result_hashes(results).contains(hash),
    ensures
        exists|i: int|
            0 <= i < results.len() && (#[trigger] results[i]).0 == hash && forall|j: int|
                0 <= j < i ==> (#[trigger] results[j]).0 != hash,
    decreases results.len(),
{
    let shorter = results.drop_last();
    let last = results.len() - 1;
    if exists|j: int| 0 <= j < last && (#[trigger] results[j]).0 == hash {
        let j = choose|j: int| 0 <= j < last && (#[trigger] results[j]).0 == hash;
        assert(shorter[j].0 == hash);
        lemma_first_result(shorter, hash);
        let i = choose|i: int|
            0 <= i < shorter.len() && (#[trigger] shorter[i]).0 == hash && forall|j: int|
                0 <= j < i ==> (#[trigger] shorter[j]).0 != hash;
        assert(results[i].0 == hash);
        assert forall|j: int| 0 <= j < i implies (#[trigger] results[j]).0 != hash by {
            assert(shorter[j].0 != hash);
        }
    } else {
        let k = choose|k: int| 0 <= k < results.len() && (#[trigger] results[k]).0 == hash;
        assert(k == last);
    }
}

/// A transaction that was revalidated and is still buffered passed the
/// revalidation: it is marked as revalidated at the finalized block, and its
/// result that counts is a verdict that keeps it, valid or not valid yet.
pub proof fn lemma_survivor_passed_revalidation(
    pool: Map<Hash256, TxInMemPoolView>,
    results: Seq<(Hash256, ValidationResult)>,
    number: u64,
    hash: Hash256,
)
    requires
        purged(pool, results, number).dom().contains(hash),
        is_due(pool[hash], number),
        result_hashes(results).contains(hash),
    ensures
        purged(pool, results, number)[hash].validated_at == number,
        exists|i: int|
            #[trigger] counts(pool, results, number, i) && results[i].0 == hash && is_kept(
                results[i].1,
            ),
{
    lemma_invalid_hashes_are_evicting_results(pool, results, number, hash);
    lemma_first_result(results, hash);
    let i = choose|i: int|
        0 <= i < results.len() && (#[trigger] results[i]).0 == hash && forall|j: int|
            0 <= j < i ==> (#[trigger] results[j]).0 != hash;
    assert(counts(pool, results, number, i));
}

/// When every buffered transaction is due and has a result, every
/// transaction that is still buffered afterwards is marked as revalidated at
/// the finalized block and has a verdict that keeps it.
pub proof fn lemma_survivors_passed_revalidation(
    pool: Map<Hash256, TxInMemPoolView>,
    results: Seq<(Hash256, ValidationResult)>,
    number: u64,
)
    requires
        forall|h: Hash256| #[trigger]
            pool.dom().contains(h) ==> is_due(pool[h], number) && result_hashes(
                results,
            ).contains(h),
    ensures
        forall|hash: Hash256| #[trigger]
            purged(pool, results, number).dom().contains(hash) ==> purged(
                pool,
                results,
                number,
            )[hash].validated_at == number && exists|i: int|
                #[trigger] counts(pool, results, number, i) && results[i].0 == hash && is_kept(
                    results[i].1,
                ),
{
    assert forall|hash: Hash256| #[trigger]
        purged(pool, results, number).dom().contains(hash) implies purged(
        pool,
        results,
        number,
    )[hash].validated_at == number && exists|i: int|
        #[trigger] counts(pool, results, number, i) && results[i].0 == hash && is_kept(
            results[i].1,
        ) by {
        assert(pool.dom().contains(hash));
        lemma_survivor_passed_revalidation(pool, results, number, hash);
    }
}

/// A buffered transaction leaves the buffer in a revalidation exactly when
/// its result that counts calls for eviction. One that is not due, or has no
/// result, stays as it was.
pub proof fn lemma_eviction_needs_a_verdict(
    pool: Map<Hash256, TxInMemPoolView>,
    results: Seq<(Hash256, ValidationResult)>,
    number: u64,
    hash: Hash256,
)
    requires
        pool.dom().contains(hash),
    ensures
        !purged(pool, results, number).dom().contains(hash) <==> (exists|i: int|
            #[trigger] counts(pool, results, number, i) && results[i].0 == hash && !is_kept(
                results[i].1,
            )),
        !(is_due(pool[hash], number) && result_hashes(results).contains(hash)) ==> purged(
            pool,
            results,
            number,
        ).dom().contains(hash) && purged(pool, results, number)[hash] == pool[hash],
{
    lemma_invalid_hashes_are_evicting_results(pool, results, number, hash);
    if !(is_due(pool[hash], number) && result_hashes(results).contains(hash)) {
        if exists|i: int|
            #[trigger] counts(pool, results, number, i) && results[i].0 == hash && !is_kept(
                results[i].1,
            ) {
            let i = choose|i: int|
                #[trigger] counts(pool, results, number, i) && results[i].0 == hash && !is_kept(
                    results[i].1,
                );
            assert(results[i].0 == hash);
        }
    }
}

/// A revalidation never sets the clock of a transaction back: whatever the
/// results are, a transaction that stays is marked with a block number that
/// is no lower than before.
pub proof fn lemma_revalidation_never_goes_back(
    pool: Map<Hash256, TxInMemPoolView>,
    results: Seq<(Hash256, ValidationResult)>,
    number: u64,
    hash: Hash256,
)
    requires
        purged(pool, results, number).dom().contains(hash),
    ensures
        pool.dom().contains(hash),
        purged(pool, results, number)[hash].validated_at >= pool[hash].validated_at,
        purged(pool, results, number)[hash] == (TxInMemPoolView {
            validated_at: purged(pool, results, number)[hash].validated_at,
            ..pool[hash]
        }),
{
}

/// A buffer that fits in one batch is revalidated whole: when it holds no
/// more transactions than a batch takes, every transaction that is due is in
/// the batch.
pub proof fn lemma_batch_holds_every_due_entry(
    entries: Seq<(Hash256, TxInMemPoolView)>,
    number: u64,
    batch: Seq<RevalidationRequest>,
    p: int,
)
    requires
        entries.len() <= TXMEMPOOL_MAX_REVALIDATION_BATCH_SIZE,
        is_revalidation_batch(entries, number, batch),
        0 <= p < entries.len(),
        is_due(entries[p].1, number),
    ensures
        exists|k: int| 0 <= k < batch.len() && (#[trigger] batch[k]).hash == entries[p].0,
{
    if !(exists|k: int| 0 <= k < batch.len() && (#[trigger] batch[k]).hash == entries[p].0) {
        // The batch is full, and each of its requests is for another place
        // than `p`: that is one place more than the buffer has.
        let places = Seq::new(batch.len(), |k: int| position_of(entries, batch[k].hash));
        assert forall|k: int| 0 <= k < places.len() implies 0 <= #[trigger] places[k]
            < entries.len() && places[k] != p by {
            assert(keys_of(entries).contains(batch[k].hash));
            assert(precedes(entries, position_of(entries, batch[k].hash), p));
        }
        assert forall|k: int, l: int| 0 <= k < l < places.len() implies places[k]
            != places[l] by {
            assert(precedes(
                entries,
                position_of(entries, batch[k].hash),
                position_of(entries, batch[l].hash),
            ));
        }
        places.unique_seq_to_set();
        lemma_int_range(0, entries.len() as int);
        let others = set_int_range(0, entries.len() as int).remove(p);
        assert(places.to_set().subset_of(others)) by {
            assert forall|x: int| places.to_set().contains(x) implies others.contains(x) by {
                let k = choose|k: int| 0 <= k < places.len() && places[k] == x;
                assert(0 <= places[k] < entries.len() && places[k] != p);
            }
        }
        lemma_len_subset(places.to_set(), others);
    }
}

/// When the buffer holds no more transactions than a batch takes, all of
/// them due, and every request of the batch is answered with a result, every
/// transaction that is still buffered afterwards is marked as revalidated at
/// the finalized block and has a verdict that keeps it.
pub proof fn lemma_small_buffer_is_revalidated_whole(
    entries: Seq<(Hash256, TxInMemPoolView)>,
    number: u64,
    batch: Seq<RevalidationRequest>,
    results: Seq<(Hash256, ValidationResult)>,
)
    requires
        keys_of(entries).no_duplicates(),
        entries.len() <= TXMEMPOOL_MAX_REVALIDATION_BATCH_SIZE,
        forall|p: int| 0 <= p < entries.len() ==> is_due((#[trigger] entries[p]).1, number),
        is_revalidation_batch(entries, number, batch),
        forall|k: int|
            0 <= k < batch.len() ==> result_hashes(results).contains((#[trigger] batch[k]).hash),
    ensures
        forall|hash: Hash256| #[trigger]
            purged(map_of(entries), results, number).dom().contains(hash) ==> purged(
                map_of(entries),
                results,
                number,
            )[hash].validated_at == number && exists|i: int|
                #[trigger] counts(map_of(entries), results, number, i) && results[i].0 == hash
                    && is_kept(results[i].1),
{
    let pool = map_of(entries);
    lemma_entries_are_mapped(entries);
    assert forall|h: Hash256| #[trigger] pool.dom().contains(h) implies is_due(pool[h], number)
        && result_hashes(results).contains(h) by {
        let p = keys_of(entries).index_of(h);
        assert(keys_of(entries)[p] == h);
        assert(entries[p].0 == h);
        assert(is_due(entries[p].1, number));
        lemma_batch_holds_every_due_entry(entries, number, batch, p);
    }
    lemma_survivors_passed_revalidation(pool, results, number);
}

} // verus!
