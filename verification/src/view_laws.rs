//! What holds of every background revalidation.

use crate::view::{
    after_worker_event, finished, next_worker_step, BlockView, WorkerEvent, WorkerState, WorkerStep,
};
use vstd::prelude::*;

verus! {

/// The state of a worker after it has taken `events`, in order.
pub open spec fn after_worker_events(s: WorkerState, events: Seq<WorkerEvent>) -> WorkerState
    decreases events.len(),
{
    if events.len() == 0 {
        s
    } else {
        after_worker_event(after_worker_events(s, events.drop_last()), events.last())
    }
}

/// The result of a revalidation is received through channel ends that a view
/// hands out once: after a revalidation was ended, ending it again hands out
/// nothing and changes nothing, so a result is applied to the view's pool at
/// most once.
pub proof fn lemma_revalidation_is_finished_once<P>(view: BlockView<P>)
    ensures
        finished(finished(view).0).1 is None,
        finished(finished(view).0).0 == finished(view).0,
{
}

/// A worker observes a request to finish within one step: after the request
/// its next step is to stop, and it stays as it is whatever arrives later, so
/// a validation that ends after the request is not recorded.
pub proof fn lemma_finish_request_stops_worker(s: WorkerState, later: Seq<WorkerEvent>)
    ensures
        next_worker_step(after_worker_event(s, WorkerEvent::FinishRequested)).1
            == WorkerStep::Stopped,
        after_worker_events(after_worker_event(s, WorkerEvent::FinishRequested), later)
            == after_worker_event(s, WorkerEvent::FinishRequested),
    decreases later.len(),
{
    if later.len() > 0 {
        lemma_finish_request_stops_worker(s, later.drop_last());
    }
}

/// A worker validates the transactions of its batch in order, each at most
/// once: whatever arrives, the number of transactions dealt with never
/// exceeds the batch, the records never outnumber it, and each record is for
/// a transaction of the batch.
pub proof fn lemma_worker_stays_within_batch(s: WorkerState, events: Seq<WorkerEvent>)
    requires
        s.next <= s.batch.len(),
        s.records.len() <= s.next,
        forall|k: int| 0 <= k < s.records.len() ==> s.batch.contains((#[trigger] s.records[k]).1),
    ensures
        after_worker_events(s, events).batch == s.batch,
        after_worker_events(s, events).next <= s.batch.len(),
        after_worker_events(s, events).records.len() <= after_worker_events(s, events).next,
        forall|k: int|
            0 <= k < after_worker_events(s, events).records.len() ==> s.batch.contains(
                (#[trigger] after_worker_events(s, events).records[k]).1,
            ),
    decreases events.len(),
{
    if events.len() > 0 {
        lemma_worker_stays_within_batch(s, events.drop_last());
        let prev = after_worker_events(s, events.drop_last());
        let next = after_worker_events(s, events);
        assert forall|k: int| 0 <= k < next.records.len() implies s.batch.contains(
            (#[trigger] next.records[k]).1,
        ) by {
            if k < prev.records.len() {
                assert(next.records[k] == prev.records[k]);
            } else {
                assert(next.records[k].1 == s.batch[prev.next as int]);
            }
        }
    }
}

} // verus!
