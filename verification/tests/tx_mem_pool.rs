use fork_aware_txpool::api::ChainApi;
use fork_aware_txpool::multi_view_listener::{ControllerCommand, Delivery, MultiViewListener};
use fork_aware_txpool::primitives::{Hash256, HashAndNumber, TransactionSource};
use fork_aware_txpool::transaction_validity::{
    ApiError, InvalidTransaction, TransactionValidityError, UnknownTransaction, ValidTransaction,
    ValidationResult,
};
use fork_aware_txpool::tx_mem_pool::{
    is_kept_result, TxInMemPool, TxMemPool, TXMEMPOOL_MAX_REVALIDATION_BATCH_SIZE,
    TXMEMPOOL_REVALIDATION_PERIOD,
};

/// A chain whose hash of a transaction is made of its length and the sum of
/// its bytes.
struct TestApi;

impl ChainApi for TestApi {
    // The name that contracts use for the result below; nothing runs it.
    fn spec_hash_and_length(&self, _tx: vstd::seq::Seq<u8>) -> (Hash256, usize) {
        unreachable!()
    }

    fn hash_and_length(&self, tx: &Vec<u8>) -> (Hash256, usize) {
        let sum: u128 = tx.iter().map(|b| *b as u128).sum();
        (Hash256 { first_half: tx.len() as u128, second_half: sum }, tx.len())
    }
}

fn valid() -> ValidationResult {
    Ok(Ok(ValidTransaction {
        priority: 1,
        requires: vec![],
        provides: vec![vec![1]],
        longevity: 64,
        propagate: true,
    }))
}

fn invalid(reason: InvalidTransaction) -> ValidationResult {
    Ok(Err(TransactionValidityError::Invalid(reason)))
}

fn at(number: u64) -> HashAndNumber {
    HashAndNumber { hash: Hash256::repeat_byte(0xf0), number }
}

fn hash(n: u32) -> Hash256 {
    Hash256 { first_half: 7, second_half: n as u128 }
}

fn validated_at(pool: &TxMemPool<TestApi>, h: Hash256) -> Option<u64> {
    pool.clone_unwatched()
        .get(h)
        .map(|e| e.validated_at())
        .or_else(|| pool.clone_watched().get(h).map(|e| e.validated_at()))
}

#[test]
fn mempool_revalidation_eviction() {
    let tx1 = Hash256::repeat_byte(1);
    let tx2 = Hash256::repeat_byte(2);
    let tx3 = Hash256::repeat_byte(3);
    let tx4 = Hash256::repeat_byte(4);

    let mut listener: MultiViewListener<()> = MultiViewListener::new();
    let mut watcher3 = listener.create_external_watcher_for_tx(tx3).unwrap();
    let mut watcher1 = listener.create_external_watcher_for_tx(tx1).unwrap();

    let mut pool = TxMemPool::new(TestApi);
    pool.push_watched_with_hash(tx1, TransactionSource::External, vec![1]);
    pool.push_unwatched_with_hash(tx2, TransactionSource::External, vec![2]);
    pool.push_watched_with_hash(tx3, TransactionSource::External, vec![3]);
    pool.push_unwatched_with_hash(tx4, TransactionSource::Local, vec![4]);

    let finalized = at(11);
    let batch = pool.revalidation_batch(&finalized);
    assert_eq!(batch.iter().map(|r| r.hash).collect::<Vec<_>>(), vec![tx1, tx2, tx3, tx4]);
    assert_eq!(batch[3].source, TransactionSource::Local);
    assert_eq!(batch[2].tx, vec![3]);

    let results = vec![
        (tx1, valid()),
        (tx2, invalid(InvalidTransaction::Future)),
        (tx3, invalid(InvalidTransaction::Stale)),
        (tx4, Err(ApiError::RuntimeApi("Validation was canceled".to_string()))),
    ];
    let report = pool.purge_transactions(&finalized, &results, &mut listener);
    assert_eq!(report, vec![Delivery::Queued, Delivery::NoController]);

    assert_eq!(pool.get_by_hash(tx1), Some(vec![1]));
    assert_eq!(pool.get_by_hash(tx2), Some(vec![2]));
    assert_eq!(pool.get_by_hash(tx3), None);
    assert_eq!(pool.get_by_hash(tx4), None);
    assert_eq!(validated_at(&pool, tx1), Some(11));
    assert_eq!(validated_at(&pool, tx2), Some(11));
    assert_eq!(pool.unwatched_and_watched_count(), (1, 1));

    // The evicted transactions were reported to the listener.
    assert!(matches!(
        watcher3.commands.try_recv(),
        Ok(ControllerCommand::InvalidateTransaction)
    ));
    assert!(watcher3.commands.try_recv().is_err());
    assert!(watcher1.commands.try_recv().is_err());
    assert!(listener.contains(tx3));
}

#[test]
fn revalidate_marks_every_result_and_reports_evictions_in_order() {
    let mut pool = TxMemPool::new(TestApi);
    for n in 0..5 {
        pool.push_unwatched_with_hash(hash(n), TransactionSource::External, vec![n as u8]);
    }
    let results = vec![
        (hash(3), invalid(InvalidTransaction::BadProof)),
        (hash(1), valid()),
        (hash(9), invalid(InvalidTransaction::Payment)),
        (hash(0), Ok(Err(TransactionValidityError::Unknown(UnknownTransaction::CannotLookup)))),
        (hash(3), valid()),
    ];
    let invalid_hashes = pool.revalidate(&at(42), &results);
    // The result for a transaction that is not buffered and the second
    // result for one transaction do not count.
    assert_eq!(invalid_hashes, vec![hash(3), hash(0)]);
    // Nothing is removed by the marking itself.
    assert_eq!(pool.unwatched_and_watched_count(), (5, 0));
    assert_eq!(validated_at(&pool, hash(0)), Some(42));
    assert_eq!(validated_at(&pool, hash(1)), Some(42));
    assert_eq!(validated_at(&pool, hash(2)), Some(0));
    assert_eq!(validated_at(&pool, hash(3)), Some(42));
    assert_eq!(validated_at(&pool, hash(4)), Some(0));
}

#[test]
fn unknown_verdict_evicts_from_the_buffer() {
    let mut listener: MultiViewListener<()> = MultiViewListener::new();
    let mut pool = TxMemPool::new(TestApi);
    pool.push_unwatched_with_hash(hash(1), TransactionSource::External, vec![1]);
    let results =
        vec![(hash(1), Ok(Err(TransactionValidityError::Unknown(UnknownTransaction::Custom(3)))))];
    pool.purge_transactions(&at(20), &results, &mut listener);
    assert_eq!(pool.get_by_hash(hash(1)), None);
}

#[test]
fn kept_results() {
    assert!(is_kept_result(&valid()));
    assert!(is_kept_result(&invalid(InvalidTransaction::Future)));
    assert!(!is_kept_result(&invalid(InvalidTransaction::Stale)));
    assert!(!is_kept_result(&invalid(InvalidTransaction::Call)));
    assert!(!is_kept_result(&invalid(InvalidTransaction::Custom(0))));
    assert!(!is_kept_result(&Ok(Err(TransactionValidityError::Unknown(
        UnknownTransaction::NoUnsignedValidator
    )))));
    assert!(!is_kept_result(&Err(ApiError::RuntimeApi("down".to_string()))));
    assert!(!is_kept_result(&Err(ApiError::UnknownBlockNumber(hash(1)))));
}

#[test]
fn revalidation_period_is_exclusive() {
    assert_eq!(TXMEMPOOL_REVALIDATION_PERIOD, 10);
    let mut pool = TxMemPool::new(TestApi);
    pool.push_unwatched_with_hash(hash(1), TransactionSource::External, vec![1]);
    assert!(pool.revalidation_batch(&at(0)).is_empty());
    assert!(pool.revalidation_batch(&at(9)).is_empty());
    assert!(pool.revalidation_batch(&at(10)).is_empty());
    assert_eq!(pool.revalidation_batch(&at(11)).len(), 1);

    pool.revalidate(&at(11), &vec![(hash(1), valid())]);
    assert!(pool.revalidation_batch(&at(21)).is_empty());
    assert_eq!(pool.revalidation_batch(&at(22)).len(), 1);
    assert_eq!(pool.revalidation_batch(&at(u64::MAX)).len(), 1);
}

#[test]
fn batch_is_sorted_oldest_first_and_ties_keep_buffer_order() {
    let mut pool = TxMemPool::new(TestApi);
    for n in 0..6 {
        pool.push_unwatched_with_hash(hash(n), TransactionSource::External, vec![n as u8]);
    }
    pool.revalidate(&at(15), &vec![(hash(1), valid()), (hash(4), valid())]);
    pool.revalidate(&at(13), &vec![(hash(2), valid())]);
    pool.revalidate(&at(95), &vec![(hash(0), valid())]);

    let batch = pool.revalidation_batch(&at(100));
    // hash(0) was revalidated at 95 and is not due at 100.
    assert_eq!(
        batch.iter().map(|r| r.hash).collect::<Vec<_>>(),
        vec![hash(3), hash(5), hash(2), hash(1), hash(4)]
    );
    for request in batch.iter() {
        assert_eq!(Some(request.tx.clone()), pool.get_by_hash(request.hash));
    }
}

#[test]
fn batch_holds_at_most_a_thousand() {
    assert_eq!(TXMEMPOOL_MAX_REVALIDATION_BATCH_SIZE, 1000);
    let mut pool = TxMemPool::new(TestApi);
    for n in 0..1003 {
        pool.push_unwatched_with_hash(hash(n), TransactionSource::External, vec![]);
    }
    // The last three entries are the oldest, all others were seen at block 20.
    let seen: Vec<_> = (0..1000).map(|n| (hash(n), valid())).collect();
    pool.revalidate(&at(20), &seen);

    let batch = pool.revalidation_batch(&at(50));
    assert_eq!(batch.len(), 1000);
    assert_eq!(batch[0].hash, hash(1000));
    assert_eq!(batch[1].hash, hash(1001));
    assert_eq!(batch[2].hash, hash(1002));
    assert_eq!(batch[3].hash, hash(0));
    assert_eq!(batch[999].hash, hash(996));

    let exactly: Vec<_> = (997..1000).map(|n| (hash(n), valid())).collect();
    pool.revalidate(&at(49), &exactly);
    assert_eq!(pool.revalidation_batch(&at(50)).len(), 1000);
    pool.revalidate(&at(49), &vec![(hash(0), valid())]);
    assert_eq!(pool.revalidation_batch(&at(50)).len(), 999);
}

#[test]
fn push_get_and_counts() {
    let mut pool = TxMemPool::new(TestApi);
    assert_eq!(pool.unwatched_and_watched_count(), (0, 0));
    assert_eq!(pool.get_by_hash(hash(1)), None);

    pool.push_unwatched_with_hash(hash(1), TransactionSource::External, vec![1, 1]);
    pool.push_watched_with_hash(hash(2), TransactionSource::Local, vec![2, 2]);
    pool.push_unwatched_with_hash(hash(3), TransactionSource::InBlock, vec![3, 3]);
    assert_eq!(pool.unwatched_and_watched_count(), (2, 1));
    assert_eq!(pool.get_by_hash(hash(2)), Some(vec![2, 2]));
    assert_eq!(pool.get_by_hash(hash(4)), None);

    // The later call replaces the entry and decides the watched flag.
    pool.push_watched_with_hash(hash(1), TransactionSource::Local, vec![9]);
    assert_eq!(pool.unwatched_and_watched_count(), (1, 2));
    assert_eq!(pool.get_by_hash(hash(1)), Some(vec![9]));
    pool.push_unwatched_with_hash(hash(1), TransactionSource::External, vec![8]);
    assert_eq!(pool.unwatched_and_watched_count(), (2, 1));
    assert_eq!(pool.get_by_hash(hash(1)), Some(vec![8]));
}

#[test]
fn replacing_an_entry_resets_its_revalidation() {
    let mut pool = TxMemPool::new(TestApi);
    pool.push_unwatched_with_hash(hash(1), TransactionSource::External, vec![1]);
    pool.revalidate(&at(30), &vec![(hash(1), valid())]);
    assert_eq!(validated_at(&pool, hash(1)), Some(30));
    pool.push_unwatched_with_hash(hash(1), TransactionSource::External, vec![1]);
    assert_eq!(validated_at(&pool, hash(1)), Some(0));
}

#[test]
fn extend_unwatched_inserts_in_order() {
    let mut pool = TxMemPool::new(TestApi);
    pool.push_watched_with_hash(hash(2), TransactionSource::Local, vec![0]);
    pool.extend_unwatched_with_hashes(
        TransactionSource::External,
        vec![(hash(1), vec![1]), (hash(2), vec![2]), (hash(1), vec![3])],
    );
    assert_eq!(pool.get_by_hash(hash(1)), Some(vec![3]));
    assert_eq!(pool.get_by_hash(hash(2)), Some(vec![2]));
    assert_eq!(pool.unwatched_and_watched_count(), (2, 0));
    pool.extend_unwatched_with_hashes(TransactionSource::External, vec![]);
    assert_eq!(pool.unwatched_and_watched_count(), (2, 0));
}

#[test]
fn snapshots_split_by_watched_flag() {
    let mut pool = TxMemPool::new(TestApi);
    pool.push_unwatched_with_hash(hash(1), TransactionSource::External, vec![1]);
    pool.push_watched_with_hash(hash(2), TransactionSource::Local, vec![2]);
    pool.push_unwatched_with_hash(hash(3), TransactionSource::InBlock, vec![3]);

    let unwatched = pool.clone_unwatched();
    assert_eq!(unwatched.len(), 2);
    assert!(unwatched.contains_key(hash(1)));
    assert!(!unwatched.contains_key(hash(2)));
    let entry = unwatched.get(hash(3)).unwrap();
    assert_eq!(entry.tx(), vec![3]);
    assert_eq!(entry.source(), TransactionSource::InBlock);
    assert!(!entry.is_watched());

    let watched = pool.clone_watched();
    assert_eq!(watched.len(), 1);
    let entry = watched.get(hash(2)).unwrap();
    assert!(entry.is_watched());
    assert_eq!(entry.tx(), vec![2]);
    assert_eq!(entry.source(), TransactionSource::Local);
    assert_eq!(entry.validated_at(), 0);
}

#[test]
fn remove_watched_goes_by_body() {
    let mut pool = TxMemPool::new(TestApi);
    pool.push_watched_with_hash(hash(1), TransactionSource::External, vec![1, 2, 3]);
    pool.push_unwatched_with_hash(hash(2), TransactionSource::External, vec![1, 2]);
    pool.push_watched_with_hash(hash(3), TransactionSource::External, vec![1, 2, 3]);
    pool.push_watched_with_hash(hash(4), TransactionSource::External, vec![1, 2, 4]);
    pool.remove_watched(&vec![1, 2, 3]);
    assert_eq!(pool.get_by_hash(hash(1)), None);
    assert_eq!(pool.get_by_hash(hash(3)), None);
    assert_eq!(pool.get_by_hash(hash(2)), Some(vec![1, 2]));
    assert_eq!(pool.get_by_hash(hash(4)), Some(vec![1, 2, 4]));
    pool.remove_watched(&vec![]);
    assert_eq!(pool.unwatched_and_watched_count(), (1, 1));
}

#[test]
fn purge_finalized_removes_outright() {
    let mut pool = TxMemPool::new(TestApi);
    for n in 0..4 {
        pool.push_unwatched_with_hash(hash(n), TransactionSource::External, vec![n as u8]);
    }
    pool.purge_finalized_transactions(&vec![hash(2), hash(7), hash(0), hash(2)]);
    assert_eq!(pool.get_by_hash(hash(0)), None);
    assert_eq!(pool.get_by_hash(hash(2)), None);
    assert_eq!(pool.get_by_hash(hash(1)), Some(vec![1]));
    assert_eq!(pool.get_by_hash(hash(3)), Some(vec![3]));
    // Those that stay keep their order.
    let batch = pool.revalidation_batch(&at(11));
    assert_eq!(batch.iter().map(|r| r.hash).collect::<Vec<_>>(), vec![hash(1), hash(3)]);
}

#[test]
fn entries_start_unvalidated() {
    let unwatched = TxInMemPool::new_unwatched(TransactionSource::External, vec![5]);
    assert!(!unwatched.is_watched());
    assert_eq!(unwatched.validated_at(), 0);
    assert_eq!(unwatched.tx(), vec![5]);
    let watched = TxInMemPool::new_watched(TransactionSource::Local, vec![6]);
    assert!(watched.is_watched());
    assert_eq!(watched.source(), TransactionSource::Local);
    let copy = watched.duplicate();
    assert!(copy.is_watched());
    assert_eq!(copy.tx(), vec![6]);
}

#[test]
fn transactions_are_buffered_under_the_hash_of_the_chain() {
    let mut pool = TxMemPool::new(TestApi);
    let h1 = pool.push_unwatched(TransactionSource::External, vec![1, 2, 3]);
    assert_eq!(h1, Hash256 { first_half: 3, second_half: 6 });
    assert_eq!(pool.get_by_hash(h1), Some(vec![1, 2, 3]));
    let h2 = pool.push_watched(TransactionSource::Local, vec![9]);
    assert_eq!(h2, Hash256 { first_half: 1, second_half: 9 });
    assert_eq!(pool.unwatched_and_watched_count(), (1, 1));

    // Equal bodies share a hash: the later submission replaces the earlier.
    let again = pool.push_watched(TransactionSource::Local, vec![1, 2, 3]);
    assert_eq!(again, h1);
    assert_eq!(pool.unwatched_and_watched_count(), (0, 2));

    let hashes =
        pool.extend_unwatched(TransactionSource::External, vec![vec![4], vec![9], vec![4]]);
    assert_eq!(
        hashes,
        vec![Hash256 { first_half: 1, second_half: 4 }, Hash256 { first_half: 1, second_half: 9 }, Hash256 { first_half: 1, second_half: 4 }]
    );
    assert_eq!(pool.unwatched_and_watched_count(), (2, 1));
    let order: Vec<_> = pool.revalidation_batch(&at(11)).iter().map(|r| r.hash).collect();
    assert_eq!(order, vec![h1, h2, Hash256 { first_half: 1, second_half: 4 }]);
}

#[test]
fn results_for_transactions_that_are_not_due_are_passed_over() {
    let mut listener: MultiViewListener<()> = MultiViewListener::new();
    let mut pool = TxMemPool::new(TestApi);
    pool.push_unwatched_with_hash(hash(1), TransactionSource::External, vec![1]);
    pool.push_unwatched_with_hash(hash(2), TransactionSource::External, vec![2]);
    pool.revalidate(&at(30), &vec![(hash(1), valid())]);
    assert_eq!(validated_at(&pool, hash(1)), Some(30));

    // At block 40 the first transaction is not due: its result neither marks
    // nor evicts it. The second one is due and goes.
    let report = pool.purge_transactions(
        &at(40),
        &vec![(hash(1), invalid(InvalidTransaction::Stale)), (hash(2), invalid(InvalidTransaction::Stale))],
        &mut listener,
    );
    assert_eq!(report, vec![Delivery::NoController]);
    assert_eq!(validated_at(&pool, hash(1)), Some(30));
    assert_eq!(pool.get_by_hash(hash(2)), None);

    // A result from an older block does not set the clock back.
    assert!(pool.revalidate(&at(12), &vec![(hash(1), invalid(InvalidTransaction::Stale))]).is_empty());
    assert_eq!(validated_at(&pool, hash(1)), Some(30));
    assert!(pool.revalidate(&at(0), &vec![(hash(1), valid())]).is_empty());
    assert_eq!(validated_at(&pool, hash(1)), Some(30));

    // Once it is due again, the result counts.
    assert_eq!(pool.revalidate(&at(41), &vec![(hash(1), invalid(InvalidTransaction::Stale))]), vec![hash(1)]);
    assert_eq!(validated_at(&pool, hash(1)), Some(41));
}
