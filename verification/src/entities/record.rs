//! Entity structural records.
use vstd::prelude::*;

use crate::entities::coord_index::copy_coord;
use crate::id::EntityId;

verus! {

/// Structural entity state indexed by [`EntityId::slot`].
///
/// Liveness is not stored here: the alive property of the entity's
/// property slab holds it.
#[derive(Debug, PartialEq)]
pub struct EntityRecord {
    /// Stable ID for this current slot generation.
    pub id: EntityId,
    /// Current coordinate in simulation space.
    pub coord: Vec<i32>,
    /// User-defined entity type tag.
    pub entity_type: u32,
}

impl View for EntityRecord {
    type V = (EntityId, Seq<i32>, u32);

    open spec fn view(&self) -> (EntityId, Seq<i32>, u32) {
        (self.id, self.coord@, self.entity_type)
    }
}

impl EntityRecord {
    /// A copy of this record.
    pub fn copy(&self) -> (r: Self)
        ensures
            r@ == self@,
    {
        EntityRecord { id: self.id, coord: copy_coord(&self.coord), entity_type: self.entity_type }
    }
}

/// The view of an optional record.
pub open spec fn opt_view(r: Option<EntityRecord>) -> Option<(EntityId, Seq<i32>, u32)> {
    match r {
        Some(rec) => Some(rec@),
        None => None,
    }
}

} // verus!
