//! What the commands of the listener are to the watchers.

use crate::hash_map::keys_of;
use crate::multi_view_listener::{
    queued_invalidations, queued_removals, ControllerCommand, Delivery,
};
use crate::primitives::Hash256;
use crate::watcher::WatcherInput;
use vstd::prelude::*;

verus! {

/// The inputs that the watcher of `tx_hash` is sent: the commands among
/// `queued` that the channel of its controller took, in order.
pub open spec fn inputs_for<S>(queued: Seq<(Hash256, ControllerCommand<S>)>, tx_hash: Hash256) -> Seq<
    WatcherInput,
>
    decreases queued.len(),
{
    if queued.len() == 0 {
        Seq::empty()
    } else if queued.last().0 == tx_hash {
        inputs_for(queued.drop_last(), tx_hash).push(queued.last().1.input())
    } else {
        inputs_for(queued.drop_last(), tx_hash)
    }
}

/// What a watcher is sent in two runs of commands is what it is sent in the
/// first, followed by what it is sent in the second.
pub proof fn lemma_inputs_for_both<S>(
    first: Seq<(Hash256, ControllerCommand<S>)>,
    second: Seq<(Hash256, ControllerCommand<S>)>,
    tx_hash: Hash256,
)
    ensures
        inputs_for(first + second, tx_hash) == inputs_for(first, tx_hash) + inputs_for(
            second,
            tx_hash,
        ),
    decreases second.len(),
{
    if second.len() == 0 {
        assert(first + second =~= first);
        assert(inputs_for(first, tx_hash) + inputs_for(second, tx_hash) =~= inputs_for(
            first,
            tx_hash,
        ));
    } else {
        lemma_inputs_for_both(first, second.drop_last(), tx_hash);
        assert((first + second).drop_last() =~= first + second.drop_last());
        assert((first + second).last() == second.last());
        assert(inputs_for(first + second, tx_hash) =~= inputs_for(first, tx_hash) + inputs_for(
            second,
            tx_hash,
        ));
    }
}

/// An invalidation leaves the other watchers alone: a transaction that is not
/// among the invalidated ones is sent nothing.
pub proof fn lemma_invalidations_pass_others_by<S>(
    tx_hashes: Seq<Hash256>,
    report: Seq<Delivery>,
    other: Hash256,
)
    requires
        !tx_hashes.contains(other),
    ensures
        inputs_for(queued_invalidations::<S>(tx_hashes, report), other) == Seq::<
            WatcherInput,
        >::empty(),
    decreases tx_hashes.len(),
{
    if tx_hashes.len() > 0 {
        let shorter = tx_hashes.drop_last();
        assert(tx_hashes[tx_hashes.len() - 1] != other);
        assert forall|i: int| 0 <= i < shorter.len() implies shorter[i] != other by {
            assert(tx_hashes[i] == shorter[i]);
        }
        lemma_invalidations_pass_others_by::<S>(shorter, report.drop_last(), other);
        let before = queued_invalidations::<S>(shorter, report.drop_last());
        if report.last() is Queued {
            let entry = (tx_hashes.last(), ControllerCommand::<S>::InvalidateTransaction);
            assert(before.push(entry).drop_last() =~= before);
        }
    }
}

/// The retirement of a view reaches every watcher that is there: a
/// transaction whose channel took the command is sent `RemoveView` for that
/// block, once, and every other transaction is sent nothing.
pub proof fn lemma_removal_reaches_every_taker<S>(
    report: Seq<(Hash256, bool)>,
    block_hash: Hash256,
    tx_hash: Hash256,
)
    requires
        keys_of(report).no_duplicates(),
    ensures
        inputs_for(queued_removals::<S>(report, block_hash), tx_hash) == if report.contains(
            (tx_hash, true),
        ) {
            seq![WatcherInput::RemoveView(block_hash)]
        } else {
            Seq::<WatcherInput>::empty()
        },
    decreases report.len(),
{
    if report.len() > 0 {
        let shorter = report.drop_last();
        let last = report.len() - 1;
        assert(keys_of(shorter) =~= keys_of(report).drop_last());
        lemma_removal_reaches_every_taker::<S>(shorter, block_hash, tx_hash);
        let before = queued_removals::<S>(shorter, block_hash);
        if report.last().1 {
            let entry = (report.last().0, ControllerCommand::<S>::RemoveView(block_hash));
            assert(before.push(entry).drop_last() =~= before);
        }
        if shorter.contains((tx_hash, true)) {
            let k = choose|k: int| 0 <= k < shorter.len() && shorter[k] == (tx_hash, true);
            assert(report[k] == (tx_hash, true));
            assert(keys_of(report)[k] == tx_hash);
            assert(keys_of(report)[last] == report.last().0);
        }
        if report.last().0 == tx_hash {
            assert(!shorter.contains((tx_hash, true))) by {
                if shorter.contains((tx_hash, true)) {
                    let k = choose|k: int| 0 <= k < shorter.len() && shorter[k] == (tx_hash, true);
                    assert(keys_of(report)[k] == tx_hash);
                    assert(keys_of(report)[last] == tx_hash);
                }
            }
            if report.last().1 {
                assert(report[last] == (tx_hash, true));
                assert(inputs_for(queued_removals::<S>(report, block_hash), tx_hash) =~= seq![
                    WatcherInput::RemoveView(block_hash),
                ]);
            } else {
                assert(!report.contains((tx_hash, true))) by {
                    if report.contains((tx_hash, true)) {
                        let k = choose|k: int|
                            0 <= k < report.len() && report[k] == (tx_hash, true);
                        if k < last {
                            assert(shorter[k] == (tx_hash, true));
                        }
                    }
                }
            }
        } else {
            assert(report.contains((tx_hash, true)) <==> shorter.contains((tx_hash, true))) by {
                if report.contains((tx_hash, true)) {
                    let k = choose|k: int| 0 <= k < report.len() && report[k] == (tx_hash, true);
                    assert(shorter[k] == (tx_hash, true));
                }
            }
        }
    }
}

} // verus!
