//! Error types, by subsystem: step (tick engine), propagator, ingress,
//! observation, arena and entity manifest.
use vstd::prelude::*;

use crate::id::{FieldId, PropertyIndex};

verus! {

/// Errors from individual propagator execution.
#[derive(Clone, Debug, PartialEq, Eq)]
pub enum PropagatorError {
    /// The propagator's step function failed.
    ExecutionFailed {
        /// Human-readable description of the failure.
        reason: String,
    },
    /// NaN detected in propagator output.
    NanDetected {
        /// The field containing the NaN.
        field_id: FieldId,
        /// Index of the first NaN cell, if known.
        cell_index: Option<usize>,
    },
    /// A user-defined constraint was violated.
    ConstraintViolation {
        /// Description of the violated constraint.
        constraint: String,
    },
}

/// Errors from the tick engine during a step.
#[derive(Clone, Debug, PartialEq, Eq)]
pub enum StepError {
    /// A propagator returned an error during execution.
    PropagatorFailed {
        /// Name of the failing propagator.
        name: String,
        /// The underlying propagator error.
        reason: PropagatorError,
    },
    /// Arena allocation failed during generation staging.
    AllocationFailed,
    /// The tick was rolled back due to a propagator failure.
    TickRollback,
    /// Ticking is disabled after consecutive rollbacks.
    TickDisabled,
    /// The requested dt exceeds a propagator's `max_dt` constraint.
    DtOutOfRange,
    /// The world is shutting down.
    ShuttingDown,
}

/// Errors from the ingress (command submission) pipeline and from entity
/// commands; used as the reason code of a receipt.
#[derive(Clone, Copy, Debug, PartialEq, Eq, Structural)]
pub enum IngressError {
    /// The command queue is at capacity.
    QueueFull,
    /// The command expired before the tick that would apply it.
    Stale,
    /// The tick was rolled back; commands were dropped.
    TickRollback,
    /// Ticking is disabled after consecutive rollbacks.
    TickDisabled,
    /// The world is shutting down.
    ShuttingDown,
    /// The command type is not supported by the current tick executor.
    UnsupportedCommand,
    /// The command was understood but could not be applied.
    NotApplied,
    /// The entity is unknown: never spawned, despawned, or of an older generation.
    UnknownEntity,
    /// Every entity slot is in use.
    EntityCapacityFull,
}

impl IngressError {
    /// A short description of the error.
    pub fn message(&self) -> (s: &'static str)
        ensures
            s@ == match self {
                IngressError::QueueFull => "command queue full"@,
                IngressError::Stale => "command basis_tick_id is stale"@,
                IngressError::TickRollback => "tick rolled back"@,
                IngressError::TickDisabled => "ticking disabled"@,
                IngressError::ShuttingDown => "world is shutting down"@,
                IngressError::UnsupportedCommand => "command type not supported"@,
                IngressError::NotApplied => "command not applied"@,
                IngressError::UnknownEntity => "unknown entity"@,
                IngressError::EntityCapacityFull => "entity capacity full"@,
            },
    {
        match self {
            IngressError::QueueFull => "command queue full",
            IngressError::Stale => "command basis_tick_id is stale",
            IngressError::TickRollback => "tick rolled back",
            IngressError::TickDisabled => "ticking disabled",
            IngressError::ShuttingDown => "world is shutting down",
            IngressError::UnsupportedCommand => "command type not supported",
            IngressError::NotApplied => "command not applied",
            IngressError::UnknownEntity => "unknown entity",
            IngressError::EntityCapacityFull => "entity capacity full",
        }
    }
}

/// Errors from the observation (egress) pipeline.
#[derive(Clone, Debug, PartialEq, Eq)]
pub enum ObsError {
    /// Observation plan generation does not match the current snapshot.
    PlanInvalidated {
        /// Description of the generation mismatch.
        reason: String,
    },
    /// Exact-tick egress request timed out.
    TimeoutWaitingForTick,
    /// Requested tick has been evicted from the ring buffer.
    NotAvailable,
    /// Observation plan composition is invalid.
    InvalidComposition {
        /// Description of the composition issue.
        reason: String,
    },
    /// Observation plan execution failed mid-fill.
    ExecutionFailed {
        /// Description of the execution failure.
        reason: String,
    },
    /// Malformed observation spec.
    InvalidObsSpec {
        /// Description of the spec issue.
        reason: String,
    },
    /// Egress worker exceeded its epoch-hold budget.
    WorkerStalled,
}

/// Errors that can occur during arena operations.
#[derive(Clone, Debug, PartialEq, Eq)]
pub enum ArenaError {
    /// Segment pool is full: no more segments can be allocated.
    CapacityExceeded {
        /// Number of bytes requested.
        requested: usize,
        /// Total capacity available across all segments, in bytes.
        capacity: usize,
    },
    /// A handle from a generation that has been reclaimed.
    StaleHandle {
        /// The generation encoded in the handle.
        handle_generation: u32,
        /// The oldest live generation in the arena.
        oldest_live: u32,
    },
    /// A field that is not registered in the arena.
    UnknownField {
        /// The unrecognised field.
        field: FieldId,
    },
    /// A field whose mutability does not permit writes in this context.
    NotWritable {
        /// The field that was not writable.
        field: FieldId,
    },
    /// The configuration or the call sequence is invalid.
    InvalidConfig {
        /// What is wrong.
        reason: String,
    },
}

/// Validation errors for an entity manifest.
#[derive(Clone, Copy, Debug, PartialEq, Eq, Structural)]
pub enum EntityManifestError {
    /// Property name/default vectors have different lengths.
    PropertyLengthMismatch {
        /// Number of property names.
        names: usize,
        /// Number of default values.
        defaults: usize,
    },
    /// The manifest declares no properties.
    EmptyProperties,
    /// The alive property index points outside the property array.
    AlivePropertyOutOfRange {
        /// Configured alive property index.
        alive_property: PropertyIndex,
        /// Number of declared properties.
        property_count: usize,
    },
}

} // verus!
