//! Stalled-worker detection of the realtime tick loop.
//!
//! A worker that holds an epoch pin longer than the allowed hold time is
//! asked to cancel; one that holds it past the grace period as well is
//! forcibly unpinned.
use vstd::prelude::*;

use crate::engine::epoch::{WorkerEpoch, EPOCH_UNPINNED};

verus! {

/// How long `w` has held its pin at `now_ns`; zero if the clock reads
/// earlier than the pin.
pub open spec fn hold_ns(w: WorkerEpoch, now_ns: u64) -> int {
    if now_ns >= w.pin_start_spec() {
        now_ns - w.pin_start_spec()
    } else {
        0
    }
}

/// Whether `w` is pinned and has held its pin longer than `max_hold_ns`.
pub open spec fn is_stalled(w: WorkerEpoch, now_ns: u64, max_hold_ns: u64) -> bool {
    w.pinned_spec() != EPOCH_UNPINNED && hold_ns(w, now_ns) > max_hold_ns
}

/// Whether `w` is pinned and has held its pin past the grace period too.
pub open spec fn is_overdue(w: WorkerEpoch, now_ns: u64, max_hold_ns: u64, grace_ns: u64) -> bool {
    w.pinned_spec() != EPOCH_UNPINNED && hold_ns(w, now_ns) > max_hold_ns + grace_ns
}

/// What a stall check does to one worker: an overdue worker is unpinned at
/// `now_ns` with its cancellation cleared; a stalled one is asked to
/// cancel; others are left alone.
pub open spec fn checked_worker(
    before: WorkerEpoch,
    after: WorkerEpoch,
    now_ns: u64,
    max_hold_ns: u64,
    grace_ns: u64,
) -> bool {
    &&& after.id_spec() == before.id_spec()
    &&& after.pin_start_spec() == before.pin_start_spec()
    &&& if is_overdue(before, now_ns, max_hold_ns, grace_ns) {
        &&& after.pinned_spec() == EPOCH_UNPINNED
        &&& after.quiesce_spec() == now_ns
        &&& !after.cancel_spec()
    } else if is_stalled(before, now_ns, max_hold_ns) {
        &&& after.pinned_spec() == before.pinned_spec()
        &&& after.quiesce_spec() == before.quiesce_spec()
        &&& after.cancel_spec()
    } else {
        &&& after.pinned_spec() == before.pinned_spec()
        &&& after.quiesce_spec() == before.quiesce_spec()
        &&& after.cancel_spec() == before.cancel_spec()
    }
}

/// Check every worker for a stalled pin at `now_ns`: ask stalled workers to
/// cancel and force-unpin overdue ones. Returns whether any worker was
/// force-unpinned.
pub fn check_stalled_workers(
    workers: &mut Vec<WorkerEpoch>,
    now_ns: u64,
    max_hold_ns: u64,
    grace_ns: u64,
) -> (had_rejection: bool)
    requires
        max_hold_ns + grace_ns <= u64::MAX,
    ensures
        final(workers)@.len() == old(workers)@.len(),
        forall|i: int|
            0 <= i < old(workers)@.len() ==> checked_worker(
                #[trigger] old(workers)@[i],
                final(workers)@[i],
                now_ns,
                max_hold_ns,
                grace_ns,
            ),
        had_rejection == exists|i: int|
            0 <= i < old(workers)@.len() && is_overdue(
                #[trigger] old(workers)@[i],
                now_ns,
                max_hold_ns,
                grace_ns,
            ),
{
    let ghost initial = workers@;
    let mut had_rejection = false;
    let mut i: usize = 0;
    while i < workers.len()
        invariant
            workers@.len() == initial.len(),
            i <= workers@.len(),
            max_hold_ns + grace_ns <= u64::MAX,
            forall|k: int|
                0 <= k < i ==> checked_worker(
                    #[trigger] initial[k],
                    workers@[k],
                    now_ns,
                    max_hold_ns,
                    grace_ns,
                ),
            forall|k: int| i <= k < initial.len() ==> #[trigger] workers@[k] == initial[k],
            had_rejection == exists|k: int|
                0 <= k < i && is_overdue(#[trigger] initial[k], now_ns, max_hold_ns, grace_ns),
        decreases initial.len() - i,
    {
        let mut w = workers[i];
        if w.is_pinned() {
            let start = w.pin_start_ns();
            let hold = if now_ns >= start {
                now_ns - start
            } else {
                0
            };
            if hold > max_hold_ns {
                w.request_cancel();
                if hold > max_hold_ns + grace_ns {
                    w.unpin(now_ns);
                    w.clear_cancel();
                    had_rejection = true;
                }
            }
        }
        workers.set(i, w);
        proof {
            assert(checked_worker(initial[i as int], workers@[i as int], now_ns, max_hold_ns, grace_ns));
        }
        i = i + 1;
    }
    had_rejection
}

} // verus!
