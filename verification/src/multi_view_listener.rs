//! The multi-view listener: one controller per watched transaction.
//!
//! For each watched transaction the listener keeps the sending end of a
//! command channel. The receiving end belongs to the transaction's external
//! watcher, which merges the commands with the status streams of the views.
//! The listener never waits for a watcher: a command is queued, and a
//! controller whose watcher is gone is dropped.

use crate::hash_map::{keys_of, lemma_prefix_grows, HashMap256};
use crate::primitives::{Hash256, TxIndex};
use crate::watcher::{ExternalWatcherContext, WatcherInput, WatcherState};
use sc_utils::mpsc::{TracingUnboundedReceiver, TracingUnboundedSender};
use vstd::prelude::*;

verus! {

/// `sc_utils::mpsc::TracingUnboundedSender`, the sending end of a metered
/// unbounded channel. It is carried around as it is; nothing is known of what
/// is inside.
#[verifier::external_type_specification]
#[verifier::external_body]
#[verifier::reject_recursive_types(T)]
pub struct ExTracingUnboundedSender<T>(TracingUnboundedSender<T>);

/// `sc_utils::mpsc::TracingUnboundedReceiver`, the receiving end of a metered
/// unbounded channel. It is carried around as it is; nothing is known of what
/// is inside.
#[verifier::external_type_specification]
#[verifier::external_body]
#[verifier::reject_recursive_types(T)]
pub struct ExTracingUnboundedReceiver<T>(TracingUnboundedReceiver<T>);

/// `sc_utils::mpsc::tracing_unbounded` makes a fresh unbounded channel and
/// returns its two ends. Nothing is claimed of them.
pub assume_specification<T>[ sc_utils::mpsc::tracing_unbounded::<T> ](
    name: &'static str,
    queue_size_warning: usize,
) -> (ends: (TracingUnboundedSender<T>, TracingUnboundedReceiver<T>))
;

/// `TracingUnboundedSender::is_closed` tells whether the receiving end is
/// gone. The answer depends on what the receiver's owner has done, so nothing
/// is claimed of it.
pub assume_specification<T>[ TracingUnboundedSender::<T>::is_closed ](
    sender: &TracingUnboundedSender<T>,
) -> (closed: bool)
;

/// `TracingUnboundedSender::unbounded_send` queues `message` without waiting
/// and fails when the receiving end is gone. The result says only whether the
/// message was queued; which of the two happens is up to the receiver's owner.
#[verifier::external_body]
fn try_send<T>(sender: &TracingUnboundedSender<T>, message: T) -> (queued: bool) {
    sender.unbounded_send(message).is_ok()
}

/// The name under which the command channels are metered.
pub const CONTROLLER_CHANNEL_NAME: &'static str = "txpool-multi-view-listener";

/// The queue length from which a command channel reports a warning.
pub const CONTROLLER_QUEUE_WARNING: usize = 32;

/// A command from the listener to the watcher of one transaction. `S` is the
/// type of a view's status stream, which the listener only passes through.
#[derive(Debug)]
pub enum ControllerCommand<S> {
    /// Merge the stream of the view at the given block.
    AddView(Hash256, S),
    /// Stop merging the stream of the view at the given block.
    RemoveView(Hash256),
    /// The transaction was found invalid at a finalized block.
    InvalidateTransaction,
    /// The transaction was finalized in the given block, at the given index.
    FinalizeTransaction(Hash256, TxIndex),
}

impl<S> ControllerCommand<S> {
    /// The input that this command is to the watcher's state machine.
    pub open spec fn input(self) -> WatcherInput {
        match self {
            ControllerCommand::AddView(block, _) => WatcherInput::AddView(block),
            ControllerCommand::RemoveView(block) => WatcherInput::RemoveView(block),
            ControllerCommand::InvalidateTransaction => WatcherInput::InvalidateTransaction,
            ControllerCommand::FinalizeTransaction(block, index) => WatcherInput::FinalizeTransaction(
                block,
                index,
            ),
        }
    }

    /// The stream that this command carries, if it carries one.
    pub open spec fn stream(self) -> Option<S> {
        match self {
            ControllerCommand::AddView(_, stream) => Some(stream),
            _ => None,
        }
    }

    /// Splits the command into the input for the watcher's state machine and
    /// the stream to merge, if the command carries one.
    pub fn into_input(self) -> (parts: (WatcherInput, Option<S>))
        ensures
            parts.0 == self.input(),
            parts.1 == self.stream(),
    {
        match self {
            ControllerCommand::AddView(block, stream) => (WatcherInput::AddView(block), Some(stream)),
            ControllerCommand::RemoveView(block) => (WatcherInput::RemoveView(block), None),
            ControllerCommand::InvalidateTransaction => (WatcherInput::InvalidateTransaction, None),
            ControllerCommand::FinalizeTransaction(block, index) => (
                WatcherInput::FinalizeTransaction(block, index),
                None,
            ),
        }
    }
}

/// What the creation of an external watcher hands out: the fresh state of the
/// merged stream and the receiving end of its command channel.
#[derive(Debug)]
#[verifier::reject_recursive_types(S)]
pub struct ExternalWatcher<S> {
    /// The state of the merged stream.
    pub context: ExternalWatcherContext,
    /// Where the commands of the listener arrive.
    pub commands: TracingUnboundedReceiver<ControllerCommand<S>>,
}

/// Creates and controls the external watchers, one for each watched
/// transaction.
#[verifier::reject_recursive_types(S)]
pub struct MultiViewListener<S> {
    controllers: HashMap256<TracingUnboundedSender<ControllerCommand<S>>>,
    /// The commands that the channels took, for the proofs.
    queued: Ghost<Seq<(Hash256, ControllerCommand<S>)>>,
}

impl<S> View for MultiViewListener<S> {
    type V = Set<Hash256>;

    /// The transactions that have a controller.
    open spec fn view(&self) -> Set<Hash256> {
        self.controllers().dom()
    }
}

/// The transactions that have a controller after watchers were created for
/// `calls`, in order, on a listener that held controllers for `watched`, with
/// no controller dropped in between.
pub open spec fn watched_after(watched: Set<Hash256>, calls: Seq<Hash256>) -> Set<Hash256>
    decreases calls.len(),
{
    if calls.len() == 0 {
        watched
    } else {
        watched_after(watched, calls.drop_last()).insert(calls.last())
    }
}

/// What became of a command for the watcher of one transaction.
#[derive(Clone, Copy, Debug, PartialEq, Eq, Structural)]
pub enum Delivery {
    /// The transaction has no controller: there was nobody to tell.
    NoController,
    /// The channel of the transaction's controller took the command.
    Queued,
    /// The channel refused the command, because the watcher is gone: the
    /// controller was dropped.
    Dropped,
}

/// Whether `delivery` can be what became of a command for `tx_hash` on a
/// listener with controllers for `watched`: there is nobody to tell exactly
/// when the transaction has no controller.
pub open spec fn delivery_fits(watched: Set<Hash256>, tx_hash: Hash256, delivery: Delivery) -> bool {
    (delivery is NoController) <==> !watched.contains(tx_hash)
}

/// The transactions that have a controller after a command for `tx_hash`
/// ended as `delivery` says.
pub open spec fn after_delivery(watched: Set<Hash256>, tx_hash: Hash256, delivery: Delivery) -> Set<
    Hash256,
> {
    if delivery is Dropped {
        watched.remove(tx_hash)
    } else {
        watched
    }
}

/// The transactions that have a controller after one command for each of
/// `tx_hashes`, in order, ended as `report` says.
pub open spec fn after_deliveries(
    watched: Set<Hash256>,
    tx_hashes: Seq<Hash256>,
    report: Seq<Delivery>,
) -> Set<Hash256>
    decreases tx_hashes.len(),
{
    if tx_hashes.len() == 0 {
        watched
    } else {
        after_delivery(
            after_deliveries(watched, tx_hashes.drop_last(), report.drop_last()),
            tx_hashes.last(),
            report.last(),
        )
    }
}

/// Whether `report` can be what became of one command for each of
/// `tx_hashes`, in order: it says of each in turn what fits the controllers
/// that the commands before it have left.
pub open spec fn deliveries_fit(
    watched: Set<Hash256>,
    tx_hashes: Seq<Hash256>,
    report: Seq<Delivery>,
) -> bool
    decreases tx_hashes.len(),
{
    &&& report.len() == tx_hashes.len()
    &&& tx_hashes.len() > 0 ==> deliveries_fit(watched, tx_hashes.drop_last(), report.drop_last())
        && delivery_fits(
        after_deliveries(watched, tx_hashes.drop_last(), report.drop_last()),
        tx_hashes.last(),
        report.last(),
    )
}

/// Whether `report` says of each transaction that has a controller, once,
/// whether its controller stays.
pub open spec fn reports_on(report: Seq<(Hash256, bool)>, watched: Set<Hash256>) -> bool {
    keys_of(report).no_duplicates() && keys_of(report).to_set() =~= watched
}

/// The transactions whose controllers do not stay, as `report` says.
pub open spec fn dropped_in(report: Seq<(Hash256, bool)>) -> Set<Hash256> {
    Set::new(
        |h: Hash256| exists|i: int| 0 <= i < report.len() && #[trigger] report[i] == (h, false),
    )
}

/// The invalidations that the channels took when one was offered for each of
/// `tx_hashes`, in order, and `report` says what became of each.
pub open spec fn queued_invalidations<S>(tx_hashes: Seq<Hash256>, report: Seq<Delivery>) -> Seq<
    (Hash256, ControllerCommand<S>),
>
    decreases tx_hashes.len(),
{
    if tx_hashes.len() == 0 {
        Seq::empty()
    } else {
        let before = queued_invalidations::<S>(tx_hashes.drop_last(), report.drop_last());
        if report.last() is Queued {
            before.push((tx_hashes.last(), ControllerCommand::InvalidateTransaction))
        } else {
            before
        }
    }
}

/// The commands to retire the view at `block_hash` that the channels took, in
/// the order of `report`, which says of each controller whether its channel
/// took the command.
pub open spec fn queued_removals<S>(report: Seq<(Hash256, bool)>, block_hash: Hash256) -> Seq<
    (Hash256, ControllerCommand<S>),
>
    decreases report.len(),
{
    if report.len() == 0 {
        Seq::empty()
    } else {
        let before = queued_removals::<S>(report.drop_last(), block_hash);
        if report.last().1 {
            before.push((report.last().0, ControllerCommand::RemoveView(block_hash)))
        } else {
            before
        }
    }
}

/// The transactions whose controllers do not stay, as `report` says, in the
/// order of the report.
fn dropped_of(report: &Vec<(Hash256, bool)>) -> (gone: Vec<Hash256>)
    ensures
        gone@.to_set() == dropped_in(report@),
{
    let mut gone: Vec<Hash256> = Vec::new();
    let mut i: usize = 0;
    while i < report.len()
        invariant
            i <= report.len(),
            forall|h: Hash256|
                gone@.contains(h) <==> (exists|k: int|
                    0 <= k < i && #[trigger] report@[k] == (h, false)),
        decreases report.len() - i,
    {
        let ghost before = gone@;
        if !report[i].1 {
            gone.push(report[i].0);
        }
        proof {
            assert forall|h: Hash256|
                gone@.contains(h) <==> (exists|k: int|
                    0 <= k < i + 1 && #[trigger] report@[k] == (h, false)) by {
                if before.contains(h) {
                    let j = choose|j: int| 0 <= j < before.len() && before[j] == h;
                    assert(gone@[j] == h);
                    let k = choose|k: int| 0 <= k < i && #[trigger] report@[k] == (h, false);
                    assert(report@[k] == (h, false));
                }
                if report@[i as int] == (h, false) {
                    assert(gone@[before.len() as int] == h);
                }
                if gone@.contains(h) && !before.contains(h) {
                    let j = choose|j: int| 0 <= j < gone@.len() && gone@[j] == h;
                    if j < before.len() {
                        assert(before[j] == h);
                    }
                    assert(report@[i as int] == (h, false));
                }
                if exists|k: int| 0 <= k < i + 1 && #[trigger] report@[k] == (h, false) {
                    let k = choose|k: int| 0 <= k < i + 1 && #[trigger] report@[k] == (h, false);
                    if k < i {
                        assert(before.contains(h));
                    }
                }
            }
        }
        i += 1;
    }
    assert(gone@.to_set() =~= dropped_in(report@));
    gone
}

impl<S> MultiViewListener<S> {
    /// The controllers: for each watched transaction, the sending end of the
    /// command channel of its watcher.
    pub closed spec fn controllers(&self) -> Map<
        Hash256,
        TracingUnboundedSender<ControllerCommand<S>>,
    > {
        self.controllers@
    }

    /// The commands that the channels of the controllers took, in the order
    /// in which they were offered, each with the transaction whose controller
    /// took it.
    pub closed spec fn queued(&self) -> Seq<(Hash256, ControllerCommand<S>)> {
        self.queued@
    }

    /// A listener without any controller.
    pub fn new() -> (listener: MultiViewListener<S>)
        ensures
            listener.queued() == Seq::<(Hash256, ControllerCommand<S>)>::empty(),
            listener.controllers() == Map::<
                Hash256,
                TracingUnboundedSender<ControllerCommand<S>>,
            >::empty(),
            listener@ == Set::<Hash256>::empty(),
    {
        let listener = MultiViewListener {
            controllers: HashMap256::new(),
            queued: Ghost(Seq::empty()),
        };
        assert(listener@ =~= Set::<Hash256>::empty());
        listener
    }

    /// Whether `tx_hash` has a controller.
    pub fn contains(&self, tx_hash: Hash256) -> (found: bool)
        ensures
            found == self@.contains(tx_hash),
    {
        self.controllers.contains_key(tx_hash)
    }

    /// Creates the external watcher of `tx_hash`, unless the transaction has
    /// one already: a transaction has at most one watcher at a time. A
    /// refused creation changes nothing; a successful one adds the new
    /// controller and leaves every other as it was.
    pub fn create_external_watcher_for_tx(&mut self, tx_hash: Hash256) -> (watcher: Option<
        ExternalWatcher<S>,
    >)
        ensures
            watcher.is_some() <==> !old(self)@.contains(tx_hash),
            final(self)@ == old(self)@.insert(tx_hash),
            watcher is None ==> final(self).controllers() == old(self).controllers(),
            watcher is Some ==> final(self).controllers().remove(tx_hash) == old(
                self,
            ).controllers(),
            watcher matches Some(w) ==> w.context@ == WatcherState::initial()
                && w.context.spec_tx_hash() == tx_hash,
            final(self).queued() == old(self).queued(),
    {
        if self.controllers.contains_key(tx_hash) {
            assert(self@.insert(tx_hash) =~= self@);
            return None;
        }
        let (sender, commands) = sc_utils::mpsc::tracing_unbounded(
            CONTROLLER_CHANNEL_NAME,
            CONTROLLER_QUEUE_WARNING,
        );
        self.controllers.insert(tx_hash, sender);
        assert(self.controllers().remove(tx_hash) =~= old(self).controllers());
        assert(self@ =~= old(self)@.insert(tx_hash));
        Some(ExternalWatcher { context: ExternalWatcherContext::new(tx_hash), commands })
    }

    /// Settles an attempt to queue a command for `tx_hash`: a controller that
    /// did not take the command has lost its watcher and is dropped. Every
    /// other controller stays as it was.
    pub fn settle_delivery(&mut self, tx_hash: Hash256, queued: bool)
        ensures
            final(self).controllers() == if queued {
                old(self).controllers()
            } else {
                old(self).controllers().remove(tx_hash)
            },
            final(self)@ == if queued {
                old(self)@
            } else {
                old(self)@.remove(tx_hash)
            },
            final(self).queued() == old(self).queued(),
    {
        if !queued {
            self.controllers.remove(tx_hash);
            assert(self@ =~= old(self)@.remove(tx_hash));
        }
    }

    /// Drops the controllers of the given transactions. Every other
    /// controller stays as it was.
    pub fn remove_controllers(&mut self, tx_hashes: &Vec<Hash256>)
        ensures
            final(self).controllers() == old(self).controllers().remove_keys(tx_hashes@.to_set()),
            final(self)@ == old(self)@.difference(tx_hashes@.to_set()),
            final(self).queued() == old(self).queued(),
    {
        let mut i: usize = 0;
        assert(self.controllers() =~= old(self).controllers().remove_keys(
            tx_hashes@.take(0).to_set(),
        ));
        while i < tx_hashes.len()
            invariant
                i <= tx_hashes.len(),
                self.controllers() == old(self).controllers().remove_keys(
                    tx_hashes@.take(i as int).to_set(),
                ),
                self.queued() == old(self).queued(),
            decreases tx_hashes.len() - i,
        {
            self.controllers.remove(tx_hashes[i]);
            proof {
                lemma_prefix_grows(tx_hashes@, i as int);
                assert(self.controllers() =~= old(self).controllers().remove_keys(
                    tx_hashes@.take(i + 1).to_set(),
                ));
            }
            i += 1;
        }
        assert(tx_hashes@.take(tx_hashes@.len() as int) =~= tx_hashes@);
        assert(self@ =~= old(self)@.difference(tx_hashes@.to_set()));
    }

    /// Offers `command` to the controller of `tx_hash`, records it if the
    /// channel takes it, and drops the controller if the channel refuses.
    fn deliver(&mut self, tx_hash: Hash256, command: ControllerCommand<S>) -> (delivery: Delivery)
        ensures
            delivery_fits(old(self)@, tx_hash, delivery),
            final(self)@ == after_delivery(old(self)@, tx_hash, delivery),
            final(self).controllers() == old(self).controllers().restrict(final(self)@),
            final(self).queued() == if delivery is Queued {
                old(self).queued().push((tx_hash, command))
            } else {
                old(self).queued()
            },
    {
        let ghost offered = (tx_hash, command);
        let delivery = match self.controllers.get(tx_hash) {
            Some(sender) => {
                let queued = try_send(sender, command);
                self.settle_delivery(tx_hash, queued);
                if queued {
                    self.queued = Ghost(self.queued@.push(offered));
                    Delivery::Queued
                } else {
                    Delivery::Dropped
                }
            },
            None => Delivery::NoController,
        };
        assert(self.controllers() =~= old(self).controllers().restrict(self@));
        delivery
    }

    /// Hands the stream of the view at `block_hash` to the watcher of
    /// `tx_hash` and returns what became of it. Nothing happens if the
    /// transaction has no controller. A controller whose watcher is gone is
    /// dropped; every other controller stays as it was.
    pub fn add_view_watcher_for_tx(
        &mut self,
        tx_hash: Hash256,
        block_hash: Hash256,
        stream: S,
    ) -> (delivery: Delivery)
        ensures
            delivery_fits(old(self)@, tx_hash, delivery),
            final(self)@ == after_delivery(old(self)@, tx_hash, delivery),
            final(self).controllers() == old(self).controllers().restrict(final(self)@),
            final(self).queued() == if delivery is Queued {
                old(self).queued().push((tx_hash, ControllerCommand::AddView(block_hash, stream)))
            } else {
                old(self).queued()
            },
    {
        self.deliver(tx_hash, ControllerCommand::AddView(block_hash, stream))
    }

    /// Tells every watcher that the view at `block_hash` is retired, and
    /// drops the controllers whose watchers are gone. Returns, for each
    /// transaction that had a controller, whether its channel took the
    /// command and the controller stays. The controllers that stay are as
    /// they were.
    pub fn remove_view(&mut self, block_hash: Hash256) -> (report: Vec<(Hash256, bool)>)
        ensures
            reports_on(report@, old(self)@),
            final(self)@ == old(self)@.difference(dropped_in(report@)),
            final(self).controllers() == old(self).controllers().restrict(final(self)@),
            final(self).queued() == old(self).queued() + queued_removals::<S>(
                report@,
                block_hash,
            ),
    {
        let mut report: Vec<(Hash256, bool)> = Vec::new();
        let n = self.controllers.len();
        let mut i: usize = 0;
        assert(self.queued() =~= old(self).queued() + queued_removals::<S>(report@, block_hash));
        while i < n
            invariant
                self.controllers() == old(self).controllers(),
                self.controllers.consistent(),
                n == self.controllers.entries().len(),
                i <= n,
                report@.len() == i,
                forall|j: int| 0 <= j < i ==> (#[trigger] report@[j]).0 == self.controllers.keys()[j],
                self.queued() == old(self).queued() + queued_removals::<S>(report@, block_hash),
            decreases n - i,
        {
            let tx_hash = self.controllers.key_at(i);
            let sender = self.controllers.value_at(i);
            let queued = try_send(sender, ControllerCommand::RemoveView(block_hash));
            let ghost report_before = report@;
            report.push((tx_hash, queued));
            if queued {
                self.queued = Ghost(
                    self.queued@.push((tx_hash, ControllerCommand::RemoveView(block_hash))),
                );
            }
            proof {
                assert(report@.drop_last() =~= report_before);
                assert(self.queued() =~= old(self).queued() + queued_removals::<S>(
                    report@,
                    block_hash,
                ));
            }
            i += 1;
        }
        assert(keys_of(report@) =~= self.controllers.keys());
        let invalid_controllers = dropped_of(&report);
        self.remove_controllers(&invalid_controllers);
        assert(self.controllers() =~= old(self).controllers().restrict(self@));
        report
    }

    /// Tells the watcher of each given transaction, in order, that the
    /// transaction was found invalid, and returns what became of each
    /// command. Transactions without a controller are passed over. Only
    /// controllers of the given transactions can be dropped, and only because
    /// their watchers are gone; the controllers that stay are as they were.
    pub fn invalidate_transactions(&mut self, invalid_hashes: Vec<Hash256>) -> (report: Vec<
        Delivery,
    >)
        ensures
            deliveries_fit(old(self)@, invalid_hashes@, report@),
            final(self)@ == after_deliveries(old(self)@, invalid_hashes@, report@),
            final(self).controllers() == old(self).controllers().restrict(final(self)@),
            final(self)@.subset_of(old(self)@),
            old(self)@.difference(final(self)@).subset_of(invalid_hashes@.to_set()),
            final(self).queued() == old(self).queued() + queued_invalidations::<S>(
                invalid_hashes@,
                report@,
            ),
    {
        let mut report: Vec<Delivery> = Vec::new();
        let mut i: usize = 0;
        proof {
            assert(invalid_hashes@.take(0) =~= Seq::<Hash256>::empty());
            assert(self.queued() =~= old(self).queued() + queued_invalidations::<S>(
                invalid_hashes@.take(0),
                report@,
            ));
            assert(self.controllers() =~= old(self).controllers().restrict(self@));
        }
        while i < invalid_hashes.len()
            invariant
                i <= invalid_hashes.len(),
                report@.len() == i,
                deliveries_fit(old(self)@, invalid_hashes@.take(i as int), report@),
                self@ == after_deliveries(old(self)@, invalid_hashes@.take(i as int), report@),
                self.controllers() == old(self).controllers().restrict(self@),
                self@.subset_of(old(self)@),
                old(self)@.difference(self@).subset_of(invalid_hashes@.to_set()),
                self.queued() == old(self).queued() + queued_invalidations::<S>(
                    invalid_hashes@.take(i as int),
                    report@,
                ),
            decreases invalid_hashes.len() - i,
        {
            let tx_hash = invalid_hashes[i];
            assert(invalid_hashes@.contains(tx_hash));
            let ghost report_before = report@;
            let ghost controllers_before = self.controllers();
            let delivery = self.deliver(tx_hash, ControllerCommand::InvalidateTransaction);
            report.push(delivery);
            proof {
                let next = invalid_hashes@.take(i + 1);
                assert(next.drop_last() =~= invalid_hashes@.take(i as int));
                assert(next.last() == tx_hash);
                assert(report@.drop_last() =~= report_before);
                assert(report@.last() == delivery);
                assert(self.controllers() =~= old(self).controllers().restrict(self@));
                assert(self.queued() =~= old(self).queued() + queued_invalidations::<S>(
                    next,
                    report@,
                ));
            }
            i += 1;
        }
        assert(invalid_hashes@.take(invalid_hashes@.len() as int) =~= invalid_hashes@);
        report
    }

    /// Tells the watcher of `tx_hash` that the transaction was finalized in
    /// `block`, at index `idx`, and returns what became of the command.
    /// Nothing happens if the transaction has no controller. A controller
    /// whose watcher is gone is dropped; every other controller stays as it
    /// was.
    pub fn finalize_transaction(
        &mut self,
        tx_hash: Hash256,
        block: Hash256,
        idx: TxIndex,
    ) -> (delivery: Delivery)
        ensures
            delivery_fits(old(self)@, tx_hash, delivery),
            final(self)@ == after_delivery(old(self)@, tx_hash, delivery),
            final(self).controllers() == old(self).controllers().restrict(final(self)@),
            final(self).queued() == if delivery is Queued {
                old(self).queued().push(
                    (tx_hash, ControllerCommand::FinalizeTransaction(block, idx)),
                )
            } else {
                old(self).queued()
            },
    {
        self.deliver(tx_hash, ControllerCommand::FinalizeTransaction(block, idx))
    }

    /// Asks every controller whether its watcher is still there and drops
    /// those whose watchers are gone. Returns, for each transaction that had
    /// a controller, whether the controller stays. The controllers that stay
    /// are as they were.
    pub fn remove_stale_controllers(&mut self) -> (report: Vec<(Hash256, bool)>)
        ensures
            reports_on(report@, old(self)@),
            final(self)@ == old(self)@.difference(dropped_in(report@)),
            final(self).controllers() == old(self).controllers().restrict(final(self)@),
            final(self).queued() == old(self).queued(),
    {
        let mut report: Vec<(Hash256, bool)> = Vec::new();
        let n = self.controllers.len();
        let mut i: usize = 0;
        while i < n
            invariant
                self.controllers() == old(self).controllers(),
                self.queued() == old(self).queued(),
                self.controllers.consistent(),
                n == self.controllers.entries().len(),
                i <= n,
                report@.len() == i,
                forall|j: int| 0 <= j < i ==> (#[trigger] report@[j]).0 == self.controllers.keys()[j],
            decreases n - i,
        {
            let open = !self.controllers.value_at(i).is_closed();
            report.push((self.controllers.key_at(i), open));
            i += 1;
        }
        assert(keys_of(report@) =~= self.controllers.keys());
        let stale = dropped_of(&report);
        self.remove_controllers(&stale);
        assert(self.controllers() =~= old(self).controllers().restrict(self@));
        report
    }
}

proof fn lemma_watched_after_is_union(watched: Set<Hash256>, calls: Seq<Hash256>)
    ensures
        forall|h: Hash256|
            watched_after(watched, calls).contains(h) <==> (watched.contains(h) || calls.contains(
                h,
            )),
    decreases calls.len(),
{
    if calls.len() > 0 {
        lemma_watched_after_is_union(watched, calls.drop_last());
        lemma_prefix_grows(calls, calls.len() - 1);
        assert(calls.take(calls.len() - 1) =~= calls.drop_last());
        assert(calls.take(calls.len() as int) =~= calls);
    }
}

/// Among any run of creations on a fresh listener, the one that succeeds for
/// a transaction is the first: creation number `k` finds no controller for
/// its transaction if and only if no earlier creation named the same
/// transaction. Every later one is refused while that controller stays.
pub proof fn lemma_one_watcher_per_transaction(calls: Seq<Hash256>, k: int)
    requires
        0 <= k < calls.len(),
    ensures
        !watched_after(Set::empty(), calls.take(k)).contains(calls[k]) <==> (forall|j: int|
            0 <= j < k ==> calls[j] != calls[k]),
{
    lemma_watched_after_is_union(Set::empty(), calls.take(k));
    if calls.take(k).contains(calls[k]) {
        let j = choose|j: int| 0 <= j < calls.take(k).len() && calls.take(k)[j] == calls[k];
        assert(calls[j] == calls[k]);
    }
    if exists|j: int| 0 <= j < k && calls[j] == calls[k] {
        let j = choose|j: int| 0 <= j < k && calls[j] == calls[k];
        assert(calls.take(k)[j] == calls[k]);
    }
}

} // verus!
