//! Per-tick performance metrics.
use vstd::prelude::*;

verus! {

/// Timing and memory metrics collected during a single tick. Durations are
/// in microseconds.
#[derive(Clone, Debug)]
pub struct StepMetrics {
    /// Wall-clock time for the entire tick.
    pub total_us: u64,
    /// Time spent processing the ingress command queue.
    pub command_processing_us: u64,
    /// Per-propagator execution times: `(name, microseconds)`.
    pub propagator_us: Vec<(String, u64)>,
    /// Time spent publishing the snapshot.
    pub snapshot_publish_us: u64,
    /// Memory usage of the arena after the tick, in bytes.
    pub memory_bytes: usize,
    /// Number of sparse segment ranges available for reuse.
    pub sparse_retired_ranges: u32,
    /// Number of sparse segment ranges pending promotion.
    pub sparse_pending_retired: u32,
    /// Number of sparse allocations that reused a retired range this tick.
    pub sparse_reuse_hits: u32,
    /// Number of sparse allocations that fell through to bump allocation this tick.
    pub sparse_reuse_misses: u32,
    /// Cumulative number of ingress rejections due to full queue.
    pub queue_full_rejections: u64,
    /// Cumulative number of ingress rejections due to tick-disabled state.
    pub tick_disabled_rejections: u64,
    /// Cumulative number of rollback events.
    pub rollback_events: u64,
    /// Cumulative number of transitions into tick-disabled state.
    pub tick_disabled_transitions: u64,
    /// Cumulative number of worker stall force-unpin events.
    pub worker_stall_events: u64,
    /// Cumulative number of ring "not available" events.
    pub ring_not_available_events: u64,
    /// Cumulative number of snapshot evictions due to ring overwrite.
    pub ring_eviction_events: u64,
    /// Cumulative number of stale/not-yet-written position reads.
    pub ring_stale_read_events: u64,
    /// Cumulative number of reader retries caused by overwrite skew.
    pub ring_skew_retry_events: u64,
}

impl StepMetrics {
    /// All counters and durations zero, no propagator times.
    pub open spec fn is_zero(&self) -> bool {
        &&& self.total_us == 0
        &&& self.command_processing_us == 0
        &&& self.propagator_us@.len() == 0
        &&& self.snapshot_publish_us == 0
        &&& self.memory_bytes == 0
        &&& self.sparse_retired_ranges == 0
        &&& self.sparse_pending_retired == 0
        &&& self.sparse_reuse_hits == 0
        &&& self.sparse_reuse_misses == 0
        &&& self.queue_full_rejections == 0
        &&& self.tick_disabled_rejections == 0
        &&& self.rollback_events == 0
        &&& self.tick_disabled_transitions == 0
        &&& self.worker_stall_events == 0
        &&& self.ring_not_available_events == 0
        &&& self.ring_eviction_events == 0
        &&& self.ring_stale_read_events == 0
        &&& self.ring_skew_retry_events == 0
    }
}

impl Default for StepMetrics {
    fn default() -> (m: Self)
        ensures
            m.is_zero(),
    {
        StepMetrics {
            total_us: 0,
            command_processing_us: 0,
            propagator_us: Vec::new(),
            snapshot_publish_us: 0,
            memory_bytes: 0,
            sparse_retired_ranges: 0,
            sparse_pending_retired: 0,
            sparse_reuse_hits: 0,
            sparse_reuse_misses: 0,
            queue_full_rejections: 0,
            tick_disabled_rejections: 0,
            rollback_events: 0,
            tick_disabled_transitions: 0,
            worker_stall_events: 0,
            ring_not_available_events: 0,
            ring_eviction_events: 0,
            ring_stale_read_events: 0,
            ring_skew_retry_events: 0,
        }
    }
}

} // verus!
