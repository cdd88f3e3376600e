//! Configuration of the realtime world's worker pool, and the structural
//! checks of a world configuration.
use vstd::prelude::*;

verus! {

/// `v` clamped to `[lo, hi]`.
pub open spec fn clamped(v: int, lo: int, hi: int) -> int {
    if v < lo {
        lo
    } else if v > hi {
        hi
    } else {
        v
    }
}

/// The worker count a configuration resolves to, given what the machine
/// reports of its parallelism (`None` when it cannot tell).
pub open spec fn resolved_workers(worker_count: Option<usize>, available: Option<usize>) -> int {
    match worker_count {
        Some(n) => clamped(n as int, 1, 64),
        None => {
            let cpus = match available {
                Some(c) => c as int,
                None => 4,
            };
            clamped(cpus / 2, 2, 16)
        },
    }
}

/// Configuration of the egress worker pool and the epoch-hold budget that
/// governs shutdown and stalled-worker detection.
#[derive(Clone, Debug)]
pub struct AsyncConfig {
    /// Number of egress worker threads. `None` = auto-detect
    /// (`available_parallelism / 2`, clamped to `[2, 16]`).
    pub worker_count: Option<usize>,
    /// Maximum milliseconds a worker may hold an epoch pin before being
    /// considered stalled and forcibly unpinned. Default: 100.
    pub max_epoch_hold_ms: u64,
    /// Grace period (ms) after cancellation before the worker is
    /// forcibly unpinned. Default: 10.
    pub cancel_grace_ms: u64,
}

impl Default for AsyncConfig {
    fn default() -> (c: Self)
        ensures
            c.worker_count is None,
            c.max_epoch_hold_ms == 100,
            c.cancel_grace_ms == 10,
    {
        AsyncConfig { worker_count: None, max_epoch_hold_ms: 100, cancel_grace_ms: 10 }
    }
}

impl AsyncConfig {
    /// Resolve the actual worker count. Explicit values are clamped to
    /// `[1, 64]`; without one, half of `available_parallelism` (4 when the
    /// machine cannot tell), clamped to `[2, 16]`.
    pub fn resolved_worker_count(&self, available_parallelism: Option<usize>) -> (n: usize)
        ensures
            n == resolved_workers(self.worker_count, available_parallelism),
            1 <= n <= 64,
    {
        match self.worker_count {
            Some(n) => {
                if n < 1 {
                    1
                } else if n > 64 {
                    64
                } else {
                    n
                }
            },
            None => {
                let cpus = match available_parallelism {
                    Some(c) => c,
                    None => 4,
                };
                let half = cpus / 2;
                if half < 2 {
                    2
                } else if half > 16 {
                    16
                } else {
                    half
                }
            },
        }
    }
}

/// Why a world configuration is structurally invalid. The float checks
/// (tick rate, backoff factor and threshold) are reported without their
/// values, which whoever checked them attaches.
#[derive(Clone, Debug)]
pub enum WorldConfigError {
    /// Space has zero cells.
    EmptySpace,
    /// No fields registered.
    NoFields,
    /// A field definition failed validation.
    InvalidField {
        /// Description of the validation failure.
        reason: String,
    },
    /// Cell count exceeds `u32::MAX`.
    CellCountOverflow {
        /// The value that overflowed.
        value: usize,
    },
    /// Field count exceeds `u32::MAX`.
    FieldCountOverflow {
        /// The value that overflowed.
        value: usize,
    },
    /// Ring buffer size is below the minimum of 2.
    RingBufferTooSmall {
        /// The configured size that was too small.
        configured: usize,
    },
    /// Ingress queue capacity is zero.
    IngressQueueZero,
    /// The tick rate is not finite and positive with a finite reciprocal.
    InvalidTickRate,
    /// `initial_max_skew` exceeds `max_skew_cap`.
    BackoffSkewExceedsCap {
        /// The configured initial max skew.
        initial: u64,
        /// The configured cap.
        cap: u64,
    },
    /// `backoff_factor` is not finite or is less than 1.0.
    BackoffInvalidFactor,
    /// `rejection_rate_threshold` is outside `[0.0, 1.0]` or not finite.
    BackoffInvalidThreshold,
    /// `decay_rate` is zero.
    BackoffZeroDecayRate,
}

/// Position `i` holds the first failed field check.
pub open spec fn first_error_at(checks: Seq<Result<(), String>>, i: int) -> bool {
    &&& 0 <= i < checks.len()
    &&& checks[i] is Err
    &&& forall|j: int| 0 <= j < i ==> #[trigger] checks[j] is Ok
}

/// The first structural check a world configuration fails, in the order
/// they are made: an empty space, no fields, the first field whose own
/// check failed, a cell count or field count beyond `u32::MAX`, a ring
/// buffer below 2, a zero ingress queue, an invalid tick rate, an initial
/// skew above its cap, an invalid backoff factor, an invalid rejection
/// threshold, a zero decay rate; `None` when it passes them all.
pub open spec fn world_shape_error(
    cell_count: usize,
    field_checks: Seq<Result<(), String>>,
    ring_buffer_size: usize,
    max_ingress_queue: usize,
    tick_rate_valid: bool,
    initial_max_skew: u64,
    max_skew_cap: u64,
    backoff_factor_valid: bool,
    threshold_valid: bool,
    decay_rate: u64,
) -> Option<WorldConfigError> {
    if cell_count == 0 {
        Some(WorldConfigError::EmptySpace)
    } else if field_checks.len() == 0 {
        Some(WorldConfigError::NoFields)
    } else if exists|i: int| first_error_at(field_checks, i) {
        Some(
            WorldConfigError::InvalidField {
                reason: field_checks[choose|i: int| first_error_at(field_checks, i)]->Err_0,
            },
        )
    } else if cell_count > u32::MAX {
        Some(WorldConfigError::CellCountOverflow { value: cell_count })
    } else if field_checks.len() > u32::MAX {
        Some(WorldConfigError::FieldCountOverflow { value: field_checks.len() as usize })
    } else if ring_buffer_size < 2 {
        Some(WorldConfigError::RingBufferTooSmall { configured: ring_buffer_size })
    } else if max_ingress_queue == 0 {
        Some(WorldConfigError::IngressQueueZero)
    } else if !tick_rate_valid {
        Some(WorldConfigError::InvalidTickRate)
    } else if initial_max_skew > max_skew_cap {
        Some(WorldConfigError::BackoffSkewExceedsCap { initial: initial_max_skew, cap: max_skew_cap })
    } else if !backoff_factor_valid {
        Some(WorldConfigError::BackoffInvalidFactor)
    } else if !threshold_valid {
        Some(WorldConfigError::BackoffInvalidThreshold)
    } else if decay_rate == 0 {
        Some(WorldConfigError::BackoffZeroDecayRate)
    } else {
        None
    }
}

/// Check the structure of a world configuration: the space's cell count,
/// each field's own check (one outcome per field, in order), the ring
/// buffer and ingress queue sizes, the outcomes of the float checks (tick
/// rate, backoff factor, rejection threshold), and the backoff's skew and
/// decay. Fails with the first check that fails, in the order of
/// `world_shape_error`.
pub fn validate_world_shape(
    cell_count: usize,
    field_checks: &[Result<(), String>],
    ring_buffer_size: usize,
    max_ingress_queue: usize,
    tick_rate_valid: bool,
    initial_max_skew: u64,
    max_skew_cap: u64,
    backoff_factor_valid: bool,
    threshold_valid: bool,
    decay_rate: u64,
) -> (r: Result<(), WorldConfigError>)
    ensures
        r == match world_shape_error(
            cell_count,
            field_checks@,
            ring_buffer_size,
            max_ingress_queue,
            tick_rate_valid,
            initial_max_skew,
            max_skew_cap,
            backoff_factor_valid,
            threshold_valid,
            decay_rate,
        ) {
            Some(e) => Err(e),
            None => Ok(()),
        },
{
    if cell_count == 0 {
        return Err(WorldConfigError::EmptySpace);
    }
    let n = field_checks.len();
    if n == 0 {
        return Err(WorldConfigError::NoFields);
    }
    let mut i: usize = 0;
    while i < n
        invariant
            n == field_checks@.len(),
            n > 0,
            cell_count != 0,
            i <= n,
            forall|j: int| 0 <= j < i ==> #[trigger] field_checks@[j] is Ok,
        decreases n - i,
    {
        let check = &field_checks[i];
        match check {
            Err(reason) => {
                proof {
                    assert(field_checks@[i as int] == *check);
                    assert(first_error_at(field_checks@, i as int));
                    let k = choose|k: int| first_error_at(field_checks@, k);
                    if k < i {
                        assert(field_checks@[k] is Ok);
                    } else if k > i {
                        assert(field_checks@[i as int] is Ok);
                    }
                    assert(k == i);
                }
                return Err(WorldConfigError::InvalidField { reason: reason.clone() });
            },
            Ok(()) => {},
        }
        i = i + 1;
    }
    proof {
        assert forall|k: int| !first_error_at(field_checks@, k) by {
            if 0 <= k < n {
                assert(field_checks@[k] is Ok);
            }
        }
    }
    if cell_count > u32::MAX as usize {
        return Err(WorldConfigError::CellCountOverflow { value: cell_count });
    }
    if n > u32::MAX as usize {
        return Err(WorldConfigError::FieldCountOverflow { value: n });
    }
    if ring_buffer_size < 2 {
        return Err(WorldConfigError::RingBufferTooSmall { configured: ring_buffer_size });
    }
    if max_ingress_queue == 0 {
        return Err(WorldConfigError::IngressQueueZero);
    }
    if !tick_rate_valid {
        return Err(WorldConfigError::InvalidTickRate);
    }
    if initial_max_skew > max_skew_cap {
        return Err(WorldConfigError::BackoffSkewExceedsCap { initial: initial_max_skew, cap: max_skew_cap });
    }
    if !backoff_factor_valid {
        return Err(WorldConfigError::BackoffInvalidFactor);
    }
    if !threshold_valid {
        return Err(WorldConfigError::BackoffInvalidThreshold);
    }
    if decay_rate == 0 {
        return Err(WorldConfigError::BackoffZeroDecayRate);
    }
    Ok(())
}

} // verus!
