use fork_aware_txpool::primitives::{Hash256, HashAndNumber, TransactionSource};
use fork_aware_txpool::transaction_validity::{
    ApiError, InvalidTransaction, TransactionValidityError, UnknownTransaction, ValidTransaction,
    ValidationResult,
};
use fork_aware_txpool::view::{
    classify, BlockView, ReadyTransaction, RevalidationWorker, ValidatedTransaction, WorkerEvent,
    WorkerStep,
};

fn validity(priority: u64) -> ValidTransaction {
    ValidTransaction {
        priority,
        requires: vec![vec![0]],
        provides: vec![vec![1]],
        longevity: 10,
        propagate: true,
    }
}

fn ready(byte: u8) -> ReadyTransaction {
    ReadyTransaction { source: TransactionSource::External, data: vec![byte], bytes: 1 }
}

fn h(n: u8) -> Hash256 {
    Hash256::repeat_byte(n)
}

fn block(number: u64) -> HashAndNumber {
    HashAndNumber { hash: h(0xb0), number }
}

fn bad(reason: InvalidTransaction) -> ValidationResult {
    Ok(Err(TransactionValidityError::Invalid(reason)))
}

#[test]
fn classify_sorts_verdicts() {
    let records = vec![
        (Ok(Ok(validity(1))), h(1), ready(1)),
        (bad(InvalidTransaction::Stale), h(2), ready(2)),
        (Ok(Err(TransactionValidityError::Unknown(UnknownTransaction::CannotLookup))), h(3), ready(3)),
        (Err(ApiError::RuntimeApi("down".to_string())), h(4), ready(4)),
        (bad(InvalidTransaction::Future), h(5), ready(5)),
        (Ok(Ok(validity(6))), h(6), ready(6)),
    ];
    let result = classify(records, 17);
    assert_eq!(result.invalid_hashes, vec![h(2), h(4), h(5)]);
    assert_eq!(result.revalidated.len(), 2);
    assert_eq!(
        result.revalidated.get(h(1)),
        Some(&ValidatedTransaction {
            at: 17,
            hash: h(1),
            source: TransactionSource::External,
            data: vec![1],
            bytes: 1,
            validity: validity(1),
        })
    );
    assert_eq!(result.revalidated.get(h(6)).unwrap().validity.priority, 6);
    assert!(result.revalidated.get(h(3)).is_none());
}

#[test]
fn classify_later_verdict_replaces_earlier() {
    let records = vec![(Ok(Ok(validity(1))), h(1), ready(1)), (Ok(Ok(validity(2))), h(1), ready(9))];
    let result = classify(records, 3);
    assert_eq!(result.revalidated.len(), 1);
    let record = result.revalidated.get(h(1)).unwrap();
    assert_eq!(record.validity.priority, 2);
    assert_eq!(record.data, vec![9]);
    assert!(result.invalid_hashes.is_empty());
}

#[test]
fn worker_runs_through_its_batch() {
    let mut worker = RevalidationWorker::new(block(5), vec![h(1), h(2), h(3)]);
    assert_eq!(worker.at(), block(5));
    assert_eq!(worker.next_step(), WorkerStep::Validate(h(1)));
    // Asking again changes nothing.
    assert_eq!(worker.next_step(), WorkerStep::Validate(h(1)));
    worker.on_event(WorkerEvent::Validated(Ok(Ok(validity(1))), ready(1)));
    assert_eq!(worker.next_step(), WorkerStep::Validate(h(2)));
    worker.on_event(WorkerEvent::NotReady);
    assert_eq!(worker.next_step(), WorkerStep::Validate(h(3)));
    worker.on_event(WorkerEvent::Validated(bad(InvalidTransaction::BadProof), ready(3)));
    assert_eq!(worker.next_step(), WorkerStep::Completed);
    assert_eq!(worker.next_step(), WorkerStep::Stopped);

    let result = worker.into_result();
    assert_eq!(result.invalid_hashes, vec![h(3)]);
    assert_eq!(result.revalidated.len(), 1);
    let record = result.revalidated.get(h(1)).unwrap();
    assert_eq!(record.at, 5);
    assert_eq!(record.hash, h(1));
    assert_eq!(record.data, vec![1]);
}

#[test]
fn worker_stops_within_one_step_of_a_finish_request() {
    let mut worker = RevalidationWorker::new(block(5), vec![h(1), h(2), h(3)]);
    assert_eq!(worker.next_step(), WorkerStep::Validate(h(1)));
    worker.on_event(WorkerEvent::Validated(bad(InvalidTransaction::Stale), ready(1)));
    assert_eq!(worker.next_step(), WorkerStep::Validate(h(2)));
    worker.on_event(WorkerEvent::FinishRequested);
    assert_eq!(worker.next_step(), WorkerStep::Stopped);
    // A validation that ends after the request is not recorded.
    worker.on_event(WorkerEvent::Validated(bad(InvalidTransaction::Stale), ready(2)));
    worker.on_event(WorkerEvent::NotReady);
    assert_eq!(worker.next_step(), WorkerStep::Stopped);
    let result = worker.into_result();
    assert_eq!(result.invalid_hashes, vec![h(1)]);
    assert_eq!(result.revalidated.len(), 0);
}

#[test]
fn worker_with_empty_batch_completes_at_once() {
    let mut worker = RevalidationWorker::new(block(1), vec![]);
    worker.on_event(WorkerEvent::Validated(Ok(Ok(validity(1))), ready(1)));
    assert_eq!(worker.next_step(), WorkerStep::Completed);
    let result = worker.into_result();
    assert!(result.invalid_hashes.is_empty());
    assert_eq!(result.revalidated.len(), 0);
}

#[test]
fn pool_update_removes_and_resubmits_whatever_was_found() {
    let result = classify(vec![(bad(InvalidTransaction::Stale), h(1), ready(1))], 2);
    let update = result.into_pool_update();
    assert_eq!(update.remove_invalid, vec![h(1)]);
    assert_eq!(update.resubmit.len(), 0);

    let result = classify(vec![(Ok(Ok(validity(4))), h(2), ready(2))], 2);
    let update = result.into_pool_update();
    assert!(update.remove_invalid.is_empty());
    assert_eq!(update.resubmit.len(), 1);
    assert_eq!(update.resubmit.get(h(2)).unwrap().at, 2);

    let result = classify(
        vec![
            (Ok(Ok(validity(4))), h(2), ready(2)),
            (bad(InvalidTransaction::Call), h(3), ready(3)),
        ],
        7,
    );
    let update = result.into_pool_update();
    assert_eq!(update.remove_invalid, vec![h(3)]);
    assert_eq!(update.resubmit.len(), 1);
    assert!(update.resubmit.contains_key(h(2)));
}

#[test]
fn revalidation_is_finished_once() {
    let mut view = BlockView::new((), block(9));
    assert!(!view.is_revalidating());
    assert!(view.finish_revalidation().is_none());

    let worker_channels = view.start_background_revalidation();
    assert!(view.is_revalidating());
    assert_eq!(view.at, block(9));

    let mut local = view.finish_revalidation().unwrap();
    assert!(!view.is_revalidating());
    assert!(view.finish_revalidation().is_none());

    // The ends that were handed out belong to the channels of the worker.
    let mut worker_channels = worker_channels;
    local.finish_revalidation_request_tx.take().unwrap().try_send(()).unwrap();
    assert!(worker_channels.finish_revalidation_request_rx.try_recv().is_ok());
    let found = classify(vec![(bad(InvalidTransaction::Stale), h(1), ready(1))], 9);
    assert!(worker_channels.revalidation_result_tx.try_send(found).is_ok());
    let received = local.revalidation_result_rx.try_recv().unwrap();
    assert_eq!(received.invalid_hashes, vec![h(1)]);
}

#[test]
fn completed_worker_leaves_the_result_channel() {
    let mut view = BlockView::new(7u8, block(9));
    view.revalidation_completed();
    assert!(!view.is_revalidating());

    let worker_channels = view.start_background_revalidation();
    view.revalidation_completed();
    assert!(view.is_revalidating());
    assert_eq!(view.pool, 7u8);
    let mut local = view.finish_revalidation().unwrap();
    assert!(local.finish_revalidation_request_tx.is_none());
    let found = classify(vec![], 9);
    assert!(worker_channels.revalidation_result_tx.try_send(found).is_ok());
    assert!(local.revalidation_result_rx.try_recv().is_ok());
}

#[test]
fn dropped_view_discards_the_result() {
    let mut view = BlockView::new((), block(9));
    let worker_channels = view.start_background_revalidation();
    drop(view);
    assert!(worker_channels.revalidation_result_tx.try_send(classify(vec![], 9)).is_err());
}

#[test]
fn new_view_from_other_starts_idle() {
    let mut view = BlockView::new(vec![1u8, 2], block(9));
    let _worker_channels = view.start_background_revalidation();
    let next = view.new_from_other(&block(10), view.pool.clone());
    assert_eq!(next.at, block(10));
    assert_eq!(next.pool, vec![1u8, 2]);
    assert!(!next.is_revalidating());
    assert!(view.is_revalidating());
}
