//! The decisions of an egress worker serving one observation task: give up
//! if cancellation was requested or there is no snapshot yet, else pin the
//! worker to the current epoch and hand out the latest snapshot.
//!
//! Running the observation plan and replying are the caller's work; the
//! caller unpins the worker afterwards, whatever the plan's outcome.
use vstd::prelude::*;

use std::sync::Arc;

use crate::engine::epoch::WorkerEpoch;
use crate::engine::ring::SnapshotRing;
use crate::error::ObsError;

verus! {

/// Whether `e` is an execution failure with the given reason.
pub open spec fn is_failure_with(e: ObsError, reason: Seq<char>) -> bool {
    match e {
        ObsError::ExecutionFailed { reason: r } => r@ == reason,
        _ => false,
    }
}

/// Start serving a task at time `now_ns`, the global epoch being `epoch`.
///
/// A worker asked to cancel clears the request and fails the task; with no
/// snapshot pushed yet the task fails too, and the worker stays as it was.
/// Otherwise the worker pins `epoch` and gets the latest snapshot.
pub fn begin_observation<T>(
    worker: &mut WorkerEpoch,
    ring: &SnapshotRing<T>,
    epoch: u64,
    now_ns: u64,
) -> (r: Result<Arc<T>, ObsError>)
    requires
        ring.wf(),
    ensures
        final(worker).id_spec() == old(worker).id_spec(),
        old(worker).cancel_spec() ==> {
            &&& r is Err
            &&& is_failure_with(r->Err_0, "worker cancelled before execution"@)
            &&& !final(worker).cancel_spec()
            &&& final(worker).pinned_spec() == old(worker).pinned_spec()
            &&& final(worker).pin_start_spec() == old(worker).pin_start_spec()
            &&& final(worker).quiesce_spec() == old(worker).quiesce_spec()
        },
        !old(worker).cancel_spec() && ring.history().len() == 0 ==> {
            &&& r is Err
            &&& is_failure_with(r->Err_0, "no snapshot available"@)
            &&& *final(worker) == *old(worker)
        },
        !old(worker).cancel_spec() && ring.history().len() > 0 ==> {
            &&& r is Ok
            &&& *r->Ok_0 == ring.history().last()
            &&& final(worker).pinned_spec() == epoch
            &&& final(worker).pin_start_spec() == now_ns
            &&& final(worker).quiesce_spec() == old(worker).quiesce_spec()
            &&& !final(worker).cancel_spec()
        },
{
    if worker.is_cancelled() {
        worker.clear_cancel();
        return Err(ObsError::ExecutionFailed { reason: "worker cancelled before execution".to_owned() });
    }
    let snapshot = match ring.latest() {
        Some(snap) => snap,
        None => {
            return Err(ObsError::ExecutionFailed { reason: "no snapshot available".to_owned() });
        },
    };
    worker.pin(epoch, now_ns);
    Ok(snapshot)
}

} // verus!
