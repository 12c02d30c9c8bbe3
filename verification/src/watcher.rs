//! The external watcher: one merged status stream per watched transaction.
//!
//! Every view that holds a watched transaction reports its own sequence of
//! statuses. The watcher folds those sequences, together with the commands of
//! the listener, into the single sequence that the submitter sees. This module
//! holds that fold as a state machine: [`step`] is its mathematical
//! definition, [`ExternalWatcherContext`] the executable state, and the proof
//! functions at the end state what holds of every run.

use crate::hash_set::HashSet256;
use crate::primitives::{Hash256, TransactionStatus, TxIndex};
use vstd::prelude::*;

verus! {

/// One thing that happens to a watcher: a status reported by a view, the end
/// of a view's stream, or a command of the listener.
#[derive(Clone, Debug, PartialEq, Eq)]
pub enum WatcherInput {
    /// The view at the given block reported a status.
    ViewStatus(Hash256, TransactionStatus),
    /// The stream of the view at the given block ended; it is merged no longer.
    ViewEnded(Hash256),
    /// A view at the given block was subscribed.
    AddView(Hash256),
    /// The view at the given block was retired.
    RemoveView(Hash256),
    /// The transaction was found invalid at a finalized block.
    InvalidateTransaction,
    /// The transaction was finalized in the given block, at the given index.
    FinalizeTransaction(Hash256, TxIndex),
}

/// The state of a watcher, as contracts speak of it.
pub struct WatcherState {
    /// The merged stream has delivered its last event.
    pub terminate: bool,
    /// `Future` was delivered.
    pub future_seen: bool,
    /// `Ready` was delivered.
    pub ready_seen: bool,
    /// `Broadcast` was delivered.
    pub broadcast_seen: bool,
    /// The blocks for which `InBlock` was delivered.
    pub inblock: Set<Hash256>,
    /// The views that reported `Future` or `Ready`.
    pub views_keeping_tx_valid: Set<Hash256>,
    /// The views whose streams are merged at present.
    pub views: Set<Hash256>,
}

impl WatcherState {
    /// The state of a watcher that has seen nothing yet.
    pub open spec fn initial() -> WatcherState {
        WatcherState {
            terminate: false,
            future_seen: false,
            ready_seen: false,
            broadcast_seen: false,
            inblock: Set::empty(),
            views_keeping_tx_valid: Set::empty(),
            views: Set::empty(),
        }
    }

    /// Whether some merged view still keeps the transaction valid.
    pub open spec fn kept_valid(self) -> bool {
        !self.views_keeping_tx_valid.disjoint(self.views)
    }
}

/// What a status reported by `view` does to the state, and whether the status
/// is passed on to the submitter.
pub open spec fn handle_status(s: WatcherState, view: Hash256, status: TransactionStatus) -> (
    WatcherState,
    bool,
) {
    match status {
        TransactionStatus::Future => (
            WatcherState {
                future_seen: s.future_seen || !s.ready_seen,
                views_keeping_tx_valid: s.views_keeping_tx_valid.insert(view),
                ..s
            },
            !s.ready_seen && !s.future_seen,
        ),
        TransactionStatus::Ready => (
            WatcherState {
                ready_seen: true,
                views_keeping_tx_valid: s.views_keeping_tx_valid.insert(view),
                ..s
            },
            !s.ready_seen,
        ),
        TransactionStatus::Broadcast(_) => (
            WatcherState { broadcast_seen: true, ..s },
            !s.broadcast_seen,
        ),
        TransactionStatus::InBlock(block, _) => (
            WatcherState { inblock: s.inblock.insert(block), ..s },
            !s.inblock.contains(block),
        ),
        TransactionStatus::FinalityTimeout(_) => (s, true),
        TransactionStatus::Finalized(_, _) => (WatcherState { terminate: true, ..s }, true),
        TransactionStatus::Retracted(_) => (s, false),
        TransactionStatus::Usurped(_) => (s, false),
        TransactionStatus::Dropped => (s, false),
        TransactionStatus::Invalid => (s, false),
    }
}

/// What an invalidation command does: the watcher ends with `Invalid` unless a
/// merged view still keeps the transaction valid.
pub open spec fn handle_invalidate(s: WatcherState) -> (WatcherState, bool) {
    if s.kept_valid() {
        (s, false)
    } else {
        (WatcherState { terminate: true, ..s }, true)
    }
}

/// One step of the watcher: the next state, and the status delivered to the
/// submitter, if any. A watcher that has terminated ignores every input.
pub open spec fn step(s: WatcherState, input: WatcherInput) -> (
    WatcherState,
    Option<TransactionStatus>,
) {
    if s.terminate {
        (s, None)
    } else {
        match input {
            WatcherInput::ViewStatus(view, status) => {
                let (next, deliver) = handle_status(s, view, status);
                (
                    next,
                    if deliver {
                        Some(status)
                    } else {
                        None
                    },
                )
            },
            WatcherInput::ViewEnded(view) => (WatcherState { views: s.views.remove(view), ..s }, None),
            WatcherInput::AddView(view) => (WatcherState { views: s.views.insert(view), ..s }, None),
            WatcherInput::RemoveView(view) => (
                WatcherState { views: s.views.remove(view), ..s },
                None,
            ),
            WatcherInput::InvalidateTransaction => {
                let (next, deliver) = handle_invalidate(s);
                (
                    next,
                    if deliver {
                        Some(TransactionStatus::Invalid)
                    } else {
                        None
                    },
                )
            },
            WatcherInput::FinalizeTransaction(block, index) => (
                WatcherState { terminate: true, ..s },
                Some(TransactionStatus::Finalized(block, index)),
            ),
        }
    }
}

/// The state after the watcher has taken `inputs`, in order, from state `s`.
pub open spec fn run(s: WatcherState, inputs: Seq<WatcherInput>) -> WatcherState
    decreases inputs.len(),
{
    if inputs.len() == 0 {
        s
    } else {
        step(run(s, inputs.drop_last()), inputs.last()).0
    }
}

/// The statuses delivered to the submitter while the watcher takes `inputs`,
/// in order, from state `s`.
pub open spec fn emitted(s: WatcherState, inputs: Seq<WatcherInput>) -> Seq<TransactionStatus>
    decreases inputs.len(),
{
    if inputs.len() == 0 {
        Seq::empty()
    } else {
        let before = emitted(s, inputs.drop_last());
        match step(run(s, inputs.drop_last()), inputs.last()).1 {
            Some(status) => before.push(status),
            None => before,
        }
    }
}

/// The status that `view` reported last among `inputs`, if it reported any.
pub open spec fn last_report(inputs: Seq<WatcherInput>, view: Hash256) -> Option<TransactionStatus>
    decreases inputs.len(),
{
    if inputs.len() == 0 {
        None
    } else {
        match inputs.last() {
            WatcherInput::ViewStatus(v, status) if v == view => Some(status),
            _ => last_report(inputs.drop_last(), view),
        }
    }
}

/// The state behind the merged stream of one watched transaction.
#[derive(Debug)]
pub struct ExternalWatcherContext {
    tx_hash: Hash256,
    terminate: bool,
    future_seen: bool,
    ready_seen: bool,
    broadcast_seen: bool,
    inblock: HashSet256,
    views_keeping_tx_valid: HashSet256,
    views: HashSet256,
}

impl View for ExternalWatcherContext {
    type V = WatcherState;

    closed spec fn view(&self) -> WatcherState {
        WatcherState {
            terminate: self.terminate,
            future_seen: self.future_seen,
            ready_seen: self.ready_seen,
            broadcast_seen: self.broadcast_seen,
            inblock: self.inblock@,
            views_keeping_tx_valid: self.views_keeping_tx_valid@,
            views: self.views@,
        }
    }
}

impl ExternalWatcherContext {
    /// The transaction that this watcher follows.
    pub closed spec fn spec_tx_hash(&self) -> Hash256 {
        self.tx_hash
    }

    /// A watcher for `tx_hash` that has seen nothing yet.
    pub fn new(tx_hash: Hash256) -> (ctx: ExternalWatcherContext)
        ensures
            ctx@ == WatcherState::initial(),
            ctx.spec_tx_hash() == tx_hash,
    {
        ExternalWatcherContext {
            tx_hash,
            terminate: false,
            future_seen: false,
            ready_seen: false,
            broadcast_seen: false,
            inblock: HashSet256::new(),
            views_keeping_tx_valid: HashSet256::new(),
            views: HashSet256::new(),
        }
    }

    /// The transaction that this watcher follows.
    pub fn tx_hash(&self) -> (hash: Hash256)
        ensures
            hash == self.spec_tx_hash(),
    {
        self.tx_hash
    }

    /// Whether the merged stream has delivered its last event.
    pub fn is_terminated(&self) -> (done: bool)
        ensures
            done == self@.terminate,
    {
        self.terminate
    }

    /// Whether the stream of the view at `block_hash` is merged at present.
    pub fn has_view(&self, block_hash: Hash256) -> (found: bool)
        ensures
            found == self@.views.contains(block_hash),
    {
        self.views.contains(block_hash)
    }

    /// Takes a status reported by the view at `hash`. Returns whether the
    /// status is to be passed on to the submitter.
    ///
    /// `Future`, `Ready` and `Broadcast` are passed on once, `InBlock` once
    /// for each block, `FinalityTimeout` and `Finalized` always. What a single
    /// view says of invalidity is not passed on, since forks may disagree, and
    /// neither is `Retracted`.
    pub fn handle(&mut self, status: &TransactionStatus, hash: Hash256) -> (deliver: bool)
        ensures
            (final(self)@, deliver) == handle_status(old(self)@, hash, *status),
            final(self).spec_tx_hash() == old(self).spec_tx_hash(),
    {
        match status {
            TransactionStatus::Future => {
                self.views_keeping_tx_valid.insert(hash);
                if self.ready_seen || self.future_seen {
                    false
                } else {
                    self.future_seen = true;
                    true
                }
            },
            TransactionStatus::Ready => {
                self.views_keeping_tx_valid.insert(hash);
                if self.ready_seen {
                    false
                } else {
                    self.ready_seen = true;
                    true
                }
            },
            TransactionStatus::Broadcast(_) => {
                if !self.broadcast_seen {
                    self.broadcast_seen = true;
                    true
                } else {
                    false
                }
            },
            TransactionStatus::InBlock(block, _) => self.inblock.insert(*block),
            TransactionStatus::Retracted(_) => false,
            TransactionStatus::FinalityTimeout(_) => true,
            TransactionStatus::Finalized(_, _) => {
                self.terminate = true;
                true
            },
            TransactionStatus::Usurped(_) => false,
            TransactionStatus::Dropped => false,
            TransactionStatus::Invalid => false,
        }
    }

    /// Takes an invalidation command. Returns whether `Invalid` is to be
    /// delivered, which ends the stream; it is not while a merged view keeps
    /// the transaction valid.
    pub fn handle_invalidate_transaction(&mut self) -> (deliver: bool)
        ensures
            (final(self)@, deliver) == handle_invalidate(old(self)@),
            final(self).spec_tx_hash() == old(self).spec_tx_hash(),
    {
        if self.views_keeping_tx_valid.is_disjoint(&self.views) {
            self.terminate = true;
            true
        } else {
            false
        }
    }

    /// Records that the stream of the view at `block_hash` is merged from now on.
    pub fn add_stream(&mut self, block_hash: Hash256)
        ensures
            final(self)@ == (WatcherState {
                views: old(self)@.views.insert(block_hash),
                ..old(self)@
            }),
            final(self).spec_tx_hash() == old(self).spec_tx_hash(),
    {
        self.views.insert(block_hash);
    }

    /// Records that the stream of the view at `block_hash` is merged no longer.
    pub fn remove_view(&mut self, block_hash: Hash256)
        ensures
            final(self)@ == (WatcherState {
                views: old(self)@.views.remove(block_hash),
                ..old(self)@
            }),
            final(self).spec_tx_hash() == old(self).spec_tx_hash(),
    {
        self.views.remove(block_hash);
    }

    /// Takes one input and returns the status to deliver to the submitter, if
    /// any. Once the stream has ended, every input is ignored.
    pub fn process(&mut self, input: WatcherInput) -> (out: Option<TransactionStatus>)
        ensures
            (final(self)@, out) == step(old(self)@, input),
            final(self).spec_tx_hash() == old(self).spec_tx_hash(),
    {
        if self.terminate {
            return None;
        }
        match input {
            WatcherInput::ViewStatus(view, status) => {
                if self.handle(&status, view) {
                    Some(status)
                } else {
                    None
                }
            },
            WatcherInput::ViewEnded(view) => {
                self.remove_view(view);
                None
            },
            WatcherInput::AddView(view) => {
                self.add_stream(view);
                None
            },
            WatcherInput::RemoveView(view) => {
                self.remove_view(view);
                None
            },
            WatcherInput::InvalidateTransaction => {
                if self.handle_invalidate_transaction() {
                    Some(TransactionStatus::Invalid)
                } else {
                    None
                }
            },
            WatcherInput::FinalizeTransaction(block, index) => {
                self.terminate = true;
                Some(TransactionStatus::Finalized(block, index))
            },
        }
    }
}

} // verus!
