//! Murk: generational arenas, identifiers, field sets, ingress ordering and
//! entity storage for deterministic simulations, with their contracts proved.

pub mod id;

pub use id::{
    EntityId, FieldId, ParameterKey, ParameterVersion, PropertyIndex, SpaceId, SpaceInstanceId,
    TickId, WorldGenerationId,
};
pub mod field;
pub mod field_set;
pub mod error;
pub mod command;
pub mod entity;
pub mod entities;
pub mod index_map;
pub mod shared;
pub mod arena;
pub mod bench;
pub mod engine;
