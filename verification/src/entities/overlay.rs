//! Entity overlay reader: reads that see this tick's staged writes first and
//! the tick-start snapshot otherwise.
use vstd::prelude::*;

use crate::entities::record::EntityRecord;
use crate::entities::snapshot::EntitySnapshot;
use crate::entities::staging::PropertyStaging;
use crate::entity::EntityManifest;
use crate::id::{EntityId, PropertyIndex};

verus! {

/// Entity reader that checks staging before the snapshot.
pub struct EntityOverlayReader<'snap, 'staging> {
    snapshot: EntitySnapshot<'snap>,
    staging: &'staging PropertyStaging,
}

impl<'snap, 'staging> EntityOverlayReader<'snap, 'staging> {
    /// The snapshot read from.
    pub closed spec fn snapshot_spec(&self) -> EntitySnapshot<'snap> {
        self.snapshot
    }

    /// The staging buffer read first.
    pub closed spec fn staging_spec(&self) -> PropertyStaging {
        *self.staging
    }

    /// Both sources are well formed.
    pub open spec fn wf(&self) -> bool {
        self.snapshot_spec().wf() && self.staging_spec().wf()
    }

    /// Create an overlay reader.
    pub fn new(snapshot: EntitySnapshot<'snap>, staging: &'staging PropertyStaging) -> (r: Self)
        ensures
            r.snapshot_spec() == snapshot,
            r.staging_spec() == *staging,
    {
        EntityOverlayReader { snapshot, staging }
    }

    /// Read a property: nothing unless the snapshot knows `id` as live;
    /// then the staged value if one was written, else the snapshot's.
    pub fn property(&self, id: EntityId, property: PropertyIndex) -> (r: Option<u32>)
        requires
            self.wf(),
        ensures
            r == if !self.snapshot_spec().is_live(id) {
                None::<u32>
            } else {
                let staged = if id.slot_of() < self.staging_spec().max_entities_spec() && property.0
                    < self.staging_spec().property_count_spec() {
                    self.staging_spec().staged()[self.staging_spec().flat(id.slot_of(), property.0)]
                } else {
                    None::<u32>
                };
                if staged is Some {
                    staged
                } else if property.0 < self.snapshot_spec().pc() {
                    Some(self.snapshot_spec().prop(id.slot_of() as int, property.0 as int))
                } else {
                    None::<u32>
                }
            },
    {
        if self.snapshot.get(id).is_none() {
            return None;
        }
        match self.staging.get(id, property) {
            Some(v) => Some(v),
            None => self.snapshot.property(id, property),
        }
    }

    /// Look up structural entity data from the snapshot.
    pub fn get(&self, id: EntityId) -> (r: Option<&EntityRecord>)
        requires
            self.wf(),
        ensures
            match r {
                Some(rec) => self.snapshot_spec().is_live(id) && self.snapshot_spec().slot(
                    id.slot_of() as int,
                ) == Some(rec@),
                None => !self.snapshot_spec().is_live(id),
            },
    {
        self.snapshot.get(id)
    }

    /// The records in use in the snapshot, in slot order.
    pub fn iter_all(&self) -> (v: Vec<&EntityRecord>)
        requires
            self.wf(),
        ensures
            Seq::new(v@.len(), |i: int| v@[i]@) == self.snapshot_spec().records_where(false),
    {
        self.snapshot.iter_all()
    }

    /// The records in use in the snapshot that are marked alive.
    pub fn iter_alive(&self) -> (v: Vec<&EntityRecord>)
        requires
            self.wf(),
        ensures
            Seq::new(v@.len(), |i: int| v@[i]@) == self.snapshot_spec().records_where(true),
    {
        self.snapshot.iter_alive()
    }

    /// Whether the snapshot marks `id` alive.
    pub fn is_alive(&self, id: EntityId) -> (b: bool)
        requires
            self.wf(),
        ensures
            b == (self.snapshot_spec().is_live(id) && self.snapshot_spec().alive_at(
                id.slot_of() as int,
            )),
    {
        self.snapshot.is_alive(id)
    }

    /// The property manifest.
    pub fn manifest(&self) -> (m: &EntityManifest<u32>)
        ensures
            *m == self.snapshot_spec().manifest_spec(),
    {
        self.snapshot.manifest()
    }
}

} // verus!
