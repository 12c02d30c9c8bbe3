//! A view: the state of the pool at one block, and its background
//! revalidation.
//!
//! The transactions of a view are revalidated in the background, by a worker
//! that the maintainer of the view can stop at any time. The worker goes
//! through the ready transactions one by one; when it is stopped or done it
//! hands back what it found, and the maintainer applies it to the view's
//! pool. This module holds both sides of that protocol as state machines. The
//! validation itself, the pool and the waiting are the caller's.

use crate::hash_map::HashMap256;
use crate::primitives::{Hash256, HashAndNumber, TransactionSource};
use crate::transaction_validity::{TransactionValidityError, ValidTransaction, ValidationResult};
use tokio::sync::mpsc::{Receiver, Sender};
use vstd::prelude::*;

verus! {

/// `tokio::sync::mpsc::Sender`, the sending end of a bounded channel. It is
/// carried around as it is; nothing is known of what is inside.
#[verifier::external_type_specification]
#[verifier::external_body]
#[verifier::reject_recursive_types(T)]
pub struct ExSender<T>(Sender<T>);

/// `tokio::sync::mpsc::Receiver`, the receiving end of a bounded channel. It
/// is carried around as it is; nothing is known of what is inside.
#[verifier::external_type_specification]
#[verifier::external_body]
#[verifier::reject_recursive_types(T)]
pub struct ExReceiver<T>(Receiver<T>);

/// `tokio::sync::mpsc::channel` makes a fresh bounded channel with room for
/// `buffer` messages and returns its two ends. It panics when `buffer` is
/// zero or above the number of permits a semaphore can hold. Nothing is
/// claimed of the ends.
pub assume_specification<T>[ tokio::sync::mpsc::channel::<T> ](buffer: usize) -> (ends: (
    Sender<T>,
    Receiver<T>,
))
    requires
        0 < buffer <= usize::MAX / 8,
;

/// A ready transaction of a view's pool, as the revalidation reads it.
#[derive(Debug, PartialEq, Eq)]
pub struct ReadyTransaction {
    /// Where the transaction came from.
    pub source: TransactionSource,
    /// The body of the transaction.
    pub data: Vec<u8>,
    /// The length of the encoded transaction.
    pub bytes: usize,
}

/// A transaction together with the verdict that found it valid.
#[derive(Debug, PartialEq, Eq)]
pub struct ValidatedTransaction {
    /// The number of the block at which the transaction was validated.
    pub at: u64,
    /// The hash of the transaction.
    pub hash: Hash256,
    /// Where the transaction came from.
    pub source: TransactionSource,
    /// The body of the transaction.
    pub data: Vec<u8>,
    /// The length of the encoded transaction.
    pub bytes: usize,
    /// What the validation found.
    pub validity: ValidTransaction,
}

impl ValidatedTransaction {
    /// The record of a transaction found valid at block number `at`.
    pub fn valid_at(
        at: u64,
        hash: Hash256,
        source: TransactionSource,
        data: Vec<u8>,
        bytes: usize,
        validity: ValidTransaction,
    ) -> (record: ValidatedTransaction)
        ensures
            record == (ValidatedTransaction { at, hash, source, data, bytes, validity }),
    {
        ValidatedTransaction { at, hash, source, data, bytes, validity }
    }
}

/// What a revalidation found: the transactions that are valid, each with its
/// new record, and the hashes of those to evict.
#[derive(Debug)]
pub struct RevalidationResult {
    /// The new records of the transactions found valid, each under its hash.
    pub revalidated: HashMap256<ValidatedTransaction>,
    /// The hashes of the transactions to evict.
    pub invalid_hashes: Vec<Hash256>,
}

/// What is to be done to a view's pool after a revalidation: first the
/// invalid transactions are removed, then the valid ones are resubmitted.
#[derive(Debug)]
pub struct PoolUpdate {
    /// The transactions to remove as invalid.
    pub remove_invalid: Vec<Hash256>,
    /// The records to resubmit.
    pub resubmit: HashMap256<ValidatedTransaction>,
}

impl RevalidationResult {
    /// What applying this result does to the pool: the invalid transactions
    /// are removed and the valid ones are resubmitted, whatever the result
    /// holds.
    pub fn into_pool_update(self) -> (update: PoolUpdate)
        ensures
            update.remove_invalid == self.invalid_hashes,
            update.resubmit == self.revalidated,
    {
        PoolUpdate { remove_invalid: self.invalid_hashes, resubmit: self.revalidated }
    }
}

/// One validation that the worker has seen through: the outcome, the hash of
/// the transaction, and the transaction as it stood in the pool.
pub type ValidationRecord = (ValidationResult, Hash256, ReadyTransaction);

/// Whether the outcome of a validation calls for the eviction of the
/// transaction from the view: it does when the transaction was found invalid,
/// for whatever reason, and when there is no verdict at all. A transaction
/// whose validity cannot be told is left alone.
pub open spec fn is_evicted(result: ValidationResult) -> bool {
    match result {
        Ok(Ok(_)) => false,
        Ok(Err(TransactionValidityError::Invalid(_))) => true,
        Ok(Err(TransactionValidityError::Unknown(_))) => false,
        Err(_) => true,
    }
}

/// The hashes to evict, in the order of the records.
pub open spec fn invalid_of(records: Seq<ValidationRecord>) -> Seq<Hash256>
    decreases records.len(),
{
    if records.len() == 0 {
        Seq::empty()
    } else if is_evicted(records.last().0) {
        invalid_of(records.drop_last()).push(records.last().1)
    } else {
        invalid_of(records.drop_last())
    }
}

/// The new records of the transactions found valid at block number `number`.
/// Of two verdicts for one hash the later one counts.
pub open spec fn revalidated_of(records: Seq<ValidationRecord>, number: u64) -> Map<
    Hash256,
    ValidatedTransaction,
>
    decreases records.len(),
{
    if records.len() == 0 {
        Map::empty()
    } else {
        let before = revalidated_of(records.drop_last(), number);
        match records.last().0 {
            Ok(Ok(validity)) => before.insert(
                records.last().1,
                ValidatedTransaction {
                    at: number,
                    hash: records.last().1,
                    source: records.last().2.source,
                    data: records.last().2.data,
                    bytes: records.last().2.bytes,
                    validity,
                },
            ),
            _ => before,
        }
    }
}

/// Sorts the records of a revalidation at block number `number` into the
/// records of the valid transactions and the hashes to evict.
pub fn classify(records: Vec<ValidationRecord>, number: u64) -> (result: RevalidationResult)
    ensures
        result.invalid_hashes@ == invalid_of(records@),
        result.revalidated@ == revalidated_of(records@, number),
{
    let mut invalid_hashes: Vec<Hash256> = Vec::new();
    let mut revalidated: HashMap256<ValidatedTransaction> = HashMap256::new();
    let ghost all = records@;
    for record in iter: records
        invariant
            iter.seq() == all,
            invalid_hashes@ == invalid_of(all.take(iter.index() as int)),
            revalidated@ == revalidated_of(all.take(iter.index() as int), number),
    {
        let (validation_result, ext_hash, ext) = record;
        proof {
            let next = all.take(iter.index() + 1);
            assert(next.drop_last() =~= all.take(iter.index() as int));
            assert(next.last() == record);
        }
        match validation_result {
            Ok(Err(TransactionValidityError::Invalid(_))) => {
                invalid_hashes.push(ext_hash);
            },
            Ok(Err(TransactionValidityError::Unknown(_))) => {},
            Ok(Ok(validity)) => {
                revalidated.insert(
                    ext_hash,
                    ValidatedTransaction::valid_at(
                        number,
                        ext_hash,
                        ext.source,
                        ext.data,
                        ext.bytes,
                        validity,
                    ),
                );
            },
            Err(_) => {
                invalid_hashes.push(ext_hash);
            },
        }
    }
    assert(all.take(all.len() as int) =~= all);
    RevalidationResult { revalidated, invalid_hashes }
}

/// The state of a revalidation worker, as contracts speak of it.
pub struct WorkerState {
    /// The hashes of the transactions that were ready when the worker started.
    pub batch: Seq<Hash256>,
    /// How many of them the worker has dealt with.
    pub next: nat,
    /// The validations that the worker has seen through, in order.
    pub records: Seq<ValidationRecord>,
    /// Whether the worker has stopped.
    pub done: bool,
}

/// What the worker is to do next.
#[derive(Clone, Copy, Debug, PartialEq, Eq, Structural)]
pub enum WorkerStep {
    /// Validate the transaction with the given hash if it is still ready,
    /// unless a request to finish arrives first.
    Validate(Hash256),
    /// All transactions are dealt with: the worker stops by itself. The
    /// maintainer's means to request a finish is to be dropped.
    Completed,
    /// The worker has stopped before.
    Stopped,
}

/// What happened while the worker waited.
#[derive(Debug)]
pub enum WorkerEvent {
    /// The maintainer asked the worker to finish.
    FinishRequested,
    /// The transaction that was to be validated was, with the given outcome.
    Validated(ValidationResult, ReadyTransaction),
    /// The transaction that was to be validated is no longer ready.
    NotReady,
}

/// The step that a worker in state `s` takes next, and its state afterwards.
pub open spec fn next_worker_step(s: WorkerState) -> (WorkerState, WorkerStep) {
    if s.done {
        (s, WorkerStep::Stopped)
    } else if s.next < s.batch.len() {
        (s, WorkerStep::Validate(s.batch[s.next as int]))
    } else {
        (WorkerState { done: true, ..s }, WorkerStep::Completed)
    }
}

/// The state of a worker after `event`. A request to finish stops the worker
/// at once. An outcome is recorded for the transaction that was to be
/// validated, and the worker moves on to the next one. A worker that has
/// stopped, or has nothing left to validate, ignores what arrives.
pub open spec fn after_worker_event(s: WorkerState, event: WorkerEvent) -> WorkerState {
    if s.done {
        s
    } else {
        match event {
            WorkerEvent::FinishRequested => WorkerState { done: true, ..s },
            WorkerEvent::Validated(result, ext) => if s.next < s.batch.len() {
                WorkerState {
                    next: s.next + 1,
                    records: s.records.push((result, s.batch[s.next as int], ext)),
                    ..s
                }
            } else {
                s
            },
            WorkerEvent::NotReady => if s.next < s.batch.len() {
                WorkerState { next: s.next + 1, ..s }
            } else {
                s
            },
        }
    }
}

/// The background revalidation of one view, as the worker runs it.
#[derive(Debug)]
pub struct RevalidationWorker {
    at: HashAndNumber,
    batch: Vec<Hash256>,
    next: usize,
    validation_results: Vec<ValidationRecord>,
    should_break: bool,
}

impl View for RevalidationWorker {
    type V = WorkerState;

    closed spec fn view(&self) -> WorkerState {
        WorkerState {
            batch: self.batch@,
            next: self.next as nat,
            records: self.validation_results@,
            done: self.should_break,
        }
    }
}

impl RevalidationWorker {
    /// The block of the view that is revalidated.
    pub closed spec fn spec_at(&self) -> HashAndNumber {
        self.at
    }

    /// A worker for the view at `at`, whose ready transactions have the
    /// hashes `batch`.
    pub fn new(at: HashAndNumber, batch: Vec<Hash256>) -> (worker: RevalidationWorker)
        ensures
            worker.spec_at() == at,
            worker@ == (WorkerState {
                batch: batch@,
                next: 0,
                records: Seq::empty(),
                done: false,
            }),
    {
        RevalidationWorker {
            at,
            batch,
            next: 0,
            validation_results: Vec::new(),
            should_break: false,
        }
    }

    /// The block of the view that is revalidated.
    pub fn at(&self) -> (at: HashAndNumber)
        ensures
            at == self.spec_at(),
    {
        self.at
    }

    /// Tells what to do next. When nothing is left to validate, the worker
    /// stops by itself.
    pub fn next_step(&mut self) -> (step: WorkerStep)
        ensures
            (final(self)@, step) == next_worker_step(old(self)@),
            final(self).spec_at() == old(self).spec_at(),
    {
        if self.should_break {
            WorkerStep::Stopped
        } else if self.next < self.batch.len() {
            WorkerStep::Validate(self.batch[self.next])
        } else {
            self.should_break = true;
            WorkerStep::Completed
        }
    }

    /// Takes what happened while the worker waited.
    pub fn on_event(&mut self, event: WorkerEvent)
        ensures
            final(self)@ == after_worker_event(old(self)@, event),
            final(self).spec_at() == old(self).spec_at(),
    {
        if self.should_break {
            return ;
        }
        match event {
            WorkerEvent::FinishRequested => {
                self.should_break = true;
            },
            WorkerEvent::Validated(result, ext) => {
                if self.next < self.batch.len() {
                    let hash = self.batch[self.next];
                    self.validation_results.push((result, hash, ext));
                    self.next = self.next + 1;
                }
            },
            WorkerEvent::NotReady => {
                if self.next < self.batch.len() {
                    self.next = self.next + 1;
                }
            },
        }
    }

    /// Ends the worker and returns what it found so far: the transactions
    /// found valid, with their new records at the view's block, and the
    /// hashes of the transactions to evict.
    pub fn into_result(self) -> (result: RevalidationResult)
        ensures
            result.invalid_hashes@ == invalid_of(self@.records),
            result.revalidated@ == revalidated_of(self@.records, self.spec_at().number),
    {
        classify(self.validation_results, self.at.number)
    }
}

/// The ends of the revalidation channels that stay with the view.
#[derive(Debug)]
pub struct FinishRevalidationLocalChannels {
    /// The means to ask the worker to finish. It is gone once the worker has
    /// completed by itself.
    pub finish_revalidation_request_tx: Option<Sender<()>>,
    /// Where the worker's result arrives.
    pub revalidation_result_rx: Receiver<RevalidationResult>,
}

impl FinishRevalidationLocalChannels {
    /// The view's ends of the two channels.
    pub fn new(
        finish_revalidation_request_tx: Sender<()>,
        revalidation_result_rx: Receiver<RevalidationResult>,
    ) -> (channels: FinishRevalidationLocalChannels)
        ensures
            channels.finish_revalidation_request_tx == Some(finish_revalidation_request_tx),
            channels.revalidation_result_rx == revalidation_result_rx,
    {
        FinishRevalidationLocalChannels {
            finish_revalidation_request_tx: Some(finish_revalidation_request_tx),
            revalidation_result_rx,
        }
    }

    /// Drops the means to ask the worker to finish.
    pub fn remove_sender(&mut self)
        ensures
            final(self).finish_revalidation_request_tx is None,
            final(self).revalidation_result_rx == old(self).revalidation_result_rx,
    {
        self.finish_revalidation_request_tx = None;
    }
}

/// The ends of the revalidation channels that go to the worker.
#[derive(Debug)]
pub struct FinishRevalidationWorkerChannels {
    /// Where the request to finish arrives.
    pub finish_revalidation_request_rx: Receiver<()>,
    /// The means to hand back the result.
    pub revalidation_result_tx: Sender<RevalidationResult>,
}

impl FinishRevalidationWorkerChannels {
    /// The worker's ends of the two channels.
    pub fn new(
        finish_revalidation_request_rx: Receiver<()>,
        revalidation_result_tx: Sender<RevalidationResult>,
    ) -> (channels: FinishRevalidationWorkerChannels)
        ensures
            channels.finish_revalidation_request_rx == finish_revalidation_request_rx,
            channels.revalidation_result_tx == revalidation_result_tx,
    {
        FinishRevalidationWorkerChannels { finish_revalidation_request_rx, revalidation_result_tx }
    }
}

/// What ending the revalidation in flight does to a view: the view keeps no
/// channel ends, and those it had are handed out.
pub open spec fn finished<P>(view: BlockView<P>) -> (
    BlockView<P>,
    Option<FinishRevalidationLocalChannels>,
) {
    (BlockView { revalidation_worker_channels: None, ..view }, view.revalidation_worker_channels)
}

/// The state of the pool at one block. `P` is the type of the validated pool,
/// which the view only holds.
#[derive(Debug)]
pub struct BlockView<P> {
    /// The validated pool of the view.
    pub pool: P,
    /// The block of the view.
    pub at: HashAndNumber,
    /// The view's ends of the channels of the revalidation in flight, if one
    /// is in flight.
    pub revalidation_worker_channels: Option<FinishRevalidationLocalChannels>,
}

impl<P> BlockView<P> {
    /// A view at block `at` over the given pool, with no revalidation in
    /// flight.
    pub fn new(pool: P, at: HashAndNumber) -> (view: BlockView<P>)
        ensures
            view.pool == pool,
            view.at == at,
            view.revalidation_worker_channels is None,
    {
        BlockView { pool, at, revalidation_worker_channels: None }
    }

    /// A view at block `at` that starts from `pool`, a copy of this view's
    /// pool. No revalidation is in flight in the new view, whatever is in this
    /// one.
    pub fn new_from_other(&self, at: &HashAndNumber, pool: P) -> (view: BlockView<P>)
        ensures
            view.pool == pool,
            view.at == *at,
            view.revalidation_worker_channels is None,
    {
        BlockView { pool, at: *at, revalidation_worker_channels: None }
    }

    /// Whether a revalidation is in flight.
    pub fn is_revalidating(&self) -> (in_flight: bool)
        ensures
            in_flight == self.revalidation_worker_channels.is_some(),
    {
        self.revalidation_worker_channels.is_some()
    }

    /// Starts a background revalidation: makes the two channels, keeps the
    /// view's ends and returns the worker's. The ends of an earlier
    /// revalidation that was not finished are dropped.
    pub fn start_background_revalidation(&mut self) -> (worker_channels:
        FinishRevalidationWorkerChannels)
        ensures
            final(self).pool == old(self).pool,
            final(self).at == old(self).at,
            final(self).revalidation_worker_channels matches Some(local)
                && local.finish_revalidation_request_tx is Some,
    {
        let (finish_revalidation_request_tx, finish_revalidation_request_rx) =
            tokio::sync::mpsc::channel(1);
        let (revalidation_result_tx, revalidation_result_rx) = tokio::sync::mpsc::channel(1);
        let finish_revalidation_worker_channels = FinishRevalidationWorkerChannels::new(
            finish_revalidation_request_rx,
            revalidation_result_tx,
        );
        let finish_revalidation_local_channels = FinishRevalidationLocalChannels::new(
            finish_revalidation_request_tx,
            revalidation_result_rx,
        );
        self.revalidation_worker_channels = Some(finish_revalidation_local_channels);
        finish_revalidation_worker_channels
    }

    /// Records that the worker has completed by itself: the means to ask it
    /// to finish is dropped, the place where its result arrives stays.
    pub fn revalidation_completed(&mut self)
        ensures
            final(self).pool == old(self).pool,
            final(self).at == old(self).at,
            final(self).revalidation_worker_channels == match old(self).revalidation_worker_channels {
                Some(local) => Some(
                    FinishRevalidationLocalChannels {
                        finish_revalidation_request_tx: None,
                        revalidation_result_rx: local.revalidation_result_rx,
                    },
                ),
                None => None,
            },
    {
        let mut channels = None;
        core::mem::swap(&mut self.revalidation_worker_channels, &mut channels);
        match channels {
            Some(local) => {
                let mut local = local;
                local.remove_sender();
                self.revalidation_worker_channels = Some(local);
            },
            None => {},
        }
    }

    /// Ends the revalidation in flight: hands out the view's ends of its
    /// channels, through which the worker is asked to finish and its result
    /// is received. They are handed out once: afterwards no revalidation is
    /// in flight, and nothing is handed out until another one is started.
    pub fn finish_revalidation(&mut self) -> (local: Option<FinishRevalidationLocalChannels>)
        ensures
            (*final(self), local) == finished(*old(self)),
    {
        let mut channels = None;
        core::mem::swap(&mut self.revalidation_worker_channels, &mut channels);
        channels
    }
}

} // verus!
