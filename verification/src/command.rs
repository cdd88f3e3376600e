//! Commands and receipts of the ingress pipeline.
use vstd::prelude::*;

use crate::error::IngressError;
use crate::id::TickId;

verus! {

/// A command submitted to the simulation via the ingress pipeline.
///
/// Commands are ordered by `priority_class` (lower = higher priority), then
/// by `source_id`, then by `source_seq`, then by `arrival_seq`. The payload
/// `P` is the operation itself; the queue never reads it.
#[derive(Clone, Debug, PartialEq)]
pub struct Command<P> {
    /// The operation to perform.
    pub payload: P,
    /// The command expires if not applied by this tick.
    pub expires_after_tick: TickId,
    /// Optional source identifier for ordering.
    pub source_id: Option<u64>,
    /// Optional per-source sequence number for ordering.
    pub source_seq: Option<u64>,
    /// Priority class. Lower values = higher priority (0 = system, 1 = user).
    pub priority_class: u8,
    /// Monotonic arrival sequence number, set by the ingress pipeline.
    pub arrival_seq: u64,
}

/// Receipt returned for each command in a submitted batch.
#[derive(Clone, Copy, Debug, PartialEq, Eq, Structural)]
pub struct Receipt {
    /// Whether the command was accepted by the ingress pipeline.
    pub accepted: bool,
    /// The tick at which the command was applied, if applicable.
    pub applied_tick_id: Option<TickId>,
    /// The reason the command was rejected, if applicable.
    pub reason_code: Option<IngressError>,
    /// Index of this command within the submitted batch.
    pub command_index: usize,
}

/// The kind of a command's payload, without what it carries.
#[derive(Clone, Copy, Debug, PartialEq, Eq, Structural)]
pub enum PayloadKind {
    /// Move an entity to a target coordinate.
    Move,
    /// Spawn a new entity.
    Spawn,
    /// Remove an entity.
    Despawn,
    /// Set a single field value at a coordinate.
    SetField,
    /// A domain-specific command.
    Custom,
    /// Set a single global parameter.
    SetParameter,
    /// Batch-set multiple parameters.
    SetParameterBatch,
}

impl PayloadKind {
    /// Whether the tick executor applies payloads of this kind: only field
    /// writes are applied; every other kind is rejected as unsupported.
    pub fn is_supported(&self) -> (b: bool)
        ensures
            b == (*self == PayloadKind::SetField),
    {
        match self {
            PayloadKind::SetField => true,
            _ => false,
        }
    }
}

} // verus!
