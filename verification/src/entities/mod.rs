//! Entity storage: generational slots, a property slab, a coordinate index,
//! and staged property writes.

pub mod coord_index;
pub mod record;
pub mod store;
pub mod staging;
pub mod snapshot;
pub mod overlay;
