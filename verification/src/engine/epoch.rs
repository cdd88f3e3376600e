//! Epoch-based reclamation primitives: a global monotonic epoch counter and
//! per-worker pin state.
use vstd::prelude::*;

verus! {

/// Sentinel value meaning "this worker is not pinned to any epoch".
pub const EPOCH_UNPINNED: u64 = u64::MAX;

/// Global epoch counter, advanced at each snapshot publication.
pub struct EpochCounter {
    current: u64,
}

impl EpochCounter {
    /// The current epoch.
    pub closed spec fn value(&self) -> u64 {
        self.current
    }

    /// Create a new epoch counter starting at 0.
    pub fn new() -> (c: Self)
        ensures
            c.value() == 0,
    {
        EpochCounter { current: 0 }
    }

    /// Advance the epoch and return the new value, one more than before.
    pub fn advance(&mut self) -> (e: u64)
        requires
            old(self).value() < u64::MAX,
        ensures
            e == old(self).value() + 1,
            final(self).value() == e,
    {
        self.current = self.current + 1;
        self.current
    }

    /// Read the current epoch value.
    pub fn current(&self) -> (e: u64)
        ensures
            e == self.value(),
    {
        self.current
    }
}

impl Default for EpochCounter {
    fn default() -> (c: Self)
        ensures
            c.value() == 0,
    {
        Self::new()
    }
}

/// Per-worker epoch state: the epoch the worker is pinned to, the times it
/// last pinned and unpinned, and a cooperative cancellation flag. Times are
/// monotonic nanoseconds supplied by the caller.
#[derive(Clone, Copy, Debug)]
pub struct WorkerEpoch {
    pinned: u64,
    pin_start_ns: u64,
    last_quiesce_ns: u64,
    cancel: bool,
    worker_id: u32,
}

impl WorkerEpoch {
    /// The epoch pinned, or `EPOCH_UNPINNED`.
    pub closed spec fn pinned_spec(&self) -> u64 {
        self.pinned
    }

    /// Time of the last pin.
    pub closed spec fn pin_start_spec(&self) -> u64 {
        self.pin_start_ns
    }

    /// Time of the last unpin.
    pub closed spec fn quiesce_spec(&self) -> u64 {
        self.last_quiesce_ns
    }

    /// Whether cancellation was requested.
    pub closed spec fn cancel_spec(&self) -> bool {
        self.cancel
    }

    /// Worker index, for diagnostics.
    pub closed spec fn id_spec(&self) -> u32 {
        self.worker_id
    }

    /// Create an unpinned worker epoch; both timestamps are seeded with
    /// `now_ns` so that the first pin is never taken for a stall.
    pub fn new(worker_id: u32, now_ns: u64) -> (w: Self)
        ensures
            w.pinned_spec() == EPOCH_UNPINNED,
            w.pin_start_spec() == now_ns,
            w.quiesce_spec() == now_ns,
            !w.cancel_spec(),
            w.id_spec() == worker_id,
    {
        WorkerEpoch {
            pinned: EPOCH_UNPINNED,
            pin_start_ns: now_ns,
            last_quiesce_ns: now_ns,
            cancel: false,
            worker_id,
        }
    }

    /// Pin this worker to `epoch` at time `now_ns`.
    pub fn pin(&mut self, epoch: u64, now_ns: u64)
        ensures
            final(self).pinned_spec() == epoch,
            final(self).pin_start_spec() == now_ns,
            final(self).quiesce_spec() == old(self).quiesce_spec(),
            final(self).cancel_spec() == old(self).cancel_spec(),
            final(self).id_spec() == old(self).id_spec(),
    {
        self.pin_start_ns = now_ns;
        self.pinned = epoch;
    }

    /// Unpin this worker at time `now_ns`, recording its quiescence.
    pub fn unpin(&mut self, now_ns: u64)
        ensures
            final(self).pinned_spec() == EPOCH_UNPINNED,
            final(self).quiesce_spec() == now_ns,
            final(self).pin_start_spec() == old(self).pin_start_spec(),
            final(self).cancel_spec() == old(self).cancel_spec(),
            final(self).id_spec() == old(self).id_spec(),
    {
        self.pinned = EPOCH_UNPINNED;
        self.last_quiesce_ns = now_ns;
    }

    /// Whether this worker is currently pinned to an epoch.
    pub fn is_pinned(&self) -> (b: bool)
        ensures
            b == (self.pinned_spec() != EPOCH_UNPINNED),
    {
        self.pinned != EPOCH_UNPINNED
    }

    /// The epoch this worker is pinned to, or `EPOCH_UNPINNED`.
    pub fn pinned_epoch(&self) -> (e: u64)
        ensures
            e == self.pinned_spec(),
    {
        self.pinned
    }

    /// Time of the last pin, in monotonic nanoseconds.
    pub fn pin_start_ns(&self) -> (t: u64)
        ensures
            t == self.pin_start_spec(),
    {
        self.pin_start_ns
    }

    /// Time of the last unpin, in monotonic nanoseconds.
    pub fn last_quiesce_ns(&self) -> (t: u64)
        ensures
            t == self.quiesce_spec(),
    {
        self.last_quiesce_ns
    }

    /// Whether cancellation has been requested.
    pub fn is_cancelled(&self) -> (b: bool)
        ensures
            b == self.cancel_spec(),
    {
        self.cancel
    }

    /// Request cancellation.
    pub fn request_cancel(&mut self)
        ensures
            final(self).cancel_spec(),
            final(self).pinned_spec() == old(self).pinned_spec(),
            final(self).pin_start_spec() == old(self).pin_start_spec(),
            final(self).quiesce_spec() == old(self).quiesce_spec(),
            final(self).id_spec() == old(self).id_spec(),
    {
        self.cancel = true;
    }

    /// Clear the cancellation flag.
    pub fn clear_cancel(&mut self)
        ensures
            !final(self).cancel_spec(),
            final(self).pinned_spec() == old(self).pinned_spec(),
            final(self).pin_start_spec() == old(self).pin_start_spec(),
            final(self).quiesce_spec() == old(self).quiesce_spec(),
            final(self).id_spec() == old(self).id_spec(),
    {
        self.cancel = false;
    }
}

/// The smallest pinned epoch among the first `k` workers, or
/// `EPOCH_UNPINNED` when none is pinned.
pub open spec fn min_pinned(workers: Seq<WorkerEpoch>, k: int) -> u64
    decreases k,
{
    if k <= 0 {
        EPOCH_UNPINNED
    } else {
        let rest = min_pinned(workers, k - 1);
        let p = workers[k - 1].pinned_spec();
        if p < rest {
            p
        } else {
            rest
        }
    }
}

/// The minimum pinned epoch across all workers; `EPOCH_UNPINNED` when no
/// worker is pinned (everything is reclaimable).
pub fn min_pinned_epoch(workers: &[WorkerEpoch]) -> (m: u64)
    ensures
        m == min_pinned(workers@, workers@.len() as int),
{
    let n = workers.len();
    let mut m = EPOCH_UNPINNED;
    let mut i: usize = 0;
    while i < n
        invariant
            n == workers@.len(),
            i <= n,
            m == min_pinned(workers@, i as int),
        decreases n - i,
    {
        let p = workers[i].pinned_epoch();
        if p < m {
            m = p;
        }
        i = i + 1;
    }
    m
}

/// The minimum pinned epoch is at most every worker's pinned epoch and is
/// one of them (or `EPOCH_UNPINNED` for no workers): nothing a pinned
/// worker holds is ever below it.
pub proof fn lemma_min_pinned_is_min(workers: Seq<WorkerEpoch>, k: int)
    requires
        0 <= k <= workers.len(),
    ensures
        forall|i: int| 0 <= i < k ==> min_pinned(workers, k) <= (#[trigger] workers[i]).pinned_spec(),
        min_pinned(workers, k) == EPOCH_UNPINNED || exists|i: int|
            0 <= i < k && min_pinned(workers, k) == (#[trigger] workers[i]).pinned_spec(),
    decreases k,
{
    if k > 0 {
        lemma_min_pinned_is_min(workers, k - 1);
    }
}

/// Advancing the epoch counter twice gives strictly increasing values.
pub proof fn lemma_advance_monotonic(before: u64, first: u64, second: u64)
    requires
        first == before + 1,
        second == first + 1,
    ensures
        before < first < second,
{
}

} // verus!
