//! What holds of every run of a watcher.

use crate::primitives::{Hash256, TransactionStatus};
use crate::watcher::{emitted, last_report, run, step, WatcherInput, WatcherState};
use vstd::prelude::*;

verus! {

/// Whether delivering both `a` and `b` would repeat something that is to be
/// delivered once: `Future`, `Ready`, `Broadcast`, or `InBlock` for one block.
pub open spec fn repeats(a: TransactionStatus, b: TransactionStatus) -> bool {
    ||| a is Future && b is Future
    ||| a is Ready && b is Ready
    ||| a is Broadcast && b is Broadcast
    ||| a is InBlock && b is InBlock && a->InBlock_0 == b->InBlock_0
}

/// Whether state `s` remembers the delivery of `status`, where `status` is of
/// a kind that is delivered once.
spec fn remembered(s: WatcherState, status: TransactionStatus) -> bool {
    match status {
        TransactionStatus::Future => s.future_seen,
        TransactionStatus::Ready => s.ready_seen,
        TransactionStatus::Broadcast(_) => s.broadcast_seen,
        TransactionStatus::InBlock(block, _) => s.inblock.contains(block),
        _ => true,
    }
}

proof fn lemma_deliveries_are_remembered(s: WatcherState, inputs: Seq<WatcherInput>)
    ensures
        forall|i: int|
            0 <= i < emitted(s, inputs).len() ==> remembered(
                run(s, inputs),
                #[trigger] emitted(s, inputs)[i],
            ),
        forall|i: int, j: int|
            0 <= i < j < emitted(s, inputs).len() ==> !repeats(
                #[trigger] emitted(s, inputs)[i],
                #[trigger] emitted(s, inputs)[j],
            ),
    decreases inputs.len(),
{
    if inputs.len() > 0 {
        let shorter = inputs.drop_last();
        lemma_deliveries_are_remembered(s, shorter);
        let before = emitted(s, shorter);
        let prev = run(s, shorter);
        let (next, out) = step(prev, inputs.last());
        assert forall|i: int| 0 <= i < before.len() implies remembered(next, #[trigger] before[i]) by {
            assert(remembered(prev, before[i]));
        }
        match out {
            Some(status) => {
                assert forall|i: int| 0 <= i < before.len() implies !repeats(
                    #[trigger] before[i],
                    status,
                ) by {
                    assert(remembered(prev, before[i]));
                }
            },
            None => {},
        }
    }
}

/// At most one `Future`, one `Ready`, one `Broadcast`, and one `InBlock` for
/// each block are delivered, whatever the views report and in whatever order
/// their reports and the listener's commands arrive.
pub proof fn lemma_no_status_repeats(s: WatcherState, inputs: Seq<WatcherInput>)
    ensures
        forall|i: int, j: int|
            0 <= i < j < emitted(s, inputs).len() ==> !repeats(
                #[trigger] emitted(s, inputs)[i],
                #[trigger] emitted(s, inputs)[j],
            ),
{
    lemma_deliveries_are_remembered(s, inputs);
}

/// Termination is final: a watcher that has terminated stays as it is and
/// delivers nothing more, whatever arrives.
pub proof fn lemma_nothing_after_termination(
    s: WatcherState,
    inputs: Seq<WatcherInput>,
    more: Seq<WatcherInput>,
)
    requires
        run(s, inputs).terminate,
    ensures
        run(s, inputs + more) == run(s, inputs),
        emitted(s, inputs + more) == emitted(s, inputs),
    decreases more.len(),
{
    if more.len() == 0 {
        assert(inputs + more =~= inputs);
    } else {
        lemma_nothing_after_termination(s, inputs, more.drop_last());
        assert((inputs + more).drop_last() =~= inputs + more.drop_last());
        assert((inputs + more).last() == more.last());
    }
}

/// The merged stream ends exactly when it has delivered `Finalized` or
/// `Invalid`, and the status that ends it is the last one delivered: a watcher
/// that starts fresh has terminated if and only if the last status it
/// delivered is terminal, and no earlier status is.
pub proof fn lemma_stream_ends_with_terminal_status(inputs: Seq<WatcherInput>)
    ensures
        run(WatcherState::initial(), inputs).terminate <==> (emitted(
            WatcherState::initial(),
            inputs,
        ).len() > 0 && emitted(WatcherState::initial(), inputs).last().is_terminal()),
        forall|i: int|
            0 <= i < emitted(WatcherState::initial(), inputs).len() - 1 ==> !(
            #[trigger] emitted(WatcherState::initial(), inputs)[i]).is_terminal(),
    decreases inputs.len(),
{
    if inputs.len() > 0 {
        lemma_stream_ends_with_terminal_status(inputs.drop_last());
    }
}

/// A view that is still merged and has reported `Future` or `Ready` is
/// recorded as keeping the transaction valid.
proof fn lemma_reporting_view_is_recorded(inputs: Seq<WatcherInput>, view: Hash256)
    requires
        last_report(inputs, view) matches Some(status) && (status is Future || status is Ready),
        !run(WatcherState::initial(), inputs).terminate,
    ensures
        run(WatcherState::initial(), inputs).views_keeping_tx_valid.contains(view),
    decreases inputs.len(),
{
    if inputs.len() > 0 {
        let shorter = inputs.drop_last();
        let prev = run(WatcherState::initial(), shorter);
        assert(!prev.terminate);
        match inputs.last() {
            WatcherInput::ViewStatus(v, status) if v == view => {},
            _ => {
                lemma_reporting_view_is_recorded(shorter, view);
            },
        }
    }
}

/// An invalidation is suppressed while a merged view keeps the transaction
/// valid: if the last report of a view was `Future` or `Ready` and that view
/// is still merged, an invalidation command delivers nothing and changes
/// nothing.
pub proof fn lemma_invalidation_is_suppressed(inputs: Seq<WatcherInput>, view: Hash256)
    requires
        last_report(inputs, view) matches Some(status) && (status is Future || status is Ready),
        run(WatcherState::initial(), inputs).views.contains(view),
    ensures
        step(run(WatcherState::initial(), inputs), WatcherInput::InvalidateTransaction) == (
            run(WatcherState::initial(), inputs),
            None::<TransactionStatus>,
        ),
{
    let s = run(WatcherState::initial(), inputs);
    if !s.terminate {
        lemma_reporting_view_is_recorded(inputs, view);
        assert(s.views_keeping_tx_valid.contains(view) && s.views.contains(view));
    }
}

/// Once no merged view keeps the transaction valid, an invalidation takes
/// effect: a watcher that has not terminated delivers `Invalid` and
/// terminates.
pub proof fn lemma_invalidation_takes_effect(s: WatcherState)
    requires
        !s.terminate,
        s.views_keeping_tx_valid.disjoint(s.views),
    ensures
        step(s, WatcherInput::InvalidateTransaction).1 == Some(TransactionStatus::Invalid),
        step(s, WatcherInput::InvalidateTransaction).0.terminate,
{
}

} // verus!
