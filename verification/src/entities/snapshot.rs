//! Entity snapshot: an immutable borrow of an entity store for observation
//! and propagator reads.
//!
//! Every ID-based lookup checks the slot's generation, so a stale ID reads
//! nothing rather than a later occupant of a recycled slot.
use vstd::prelude::*;

use crate::entities::record::{EntityRecord, opt_view};
use crate::entities::store::{bits_positive, count_alive, is_positive, present};
use crate::entity::EntityManifest;
use crate::id::{EntityId, PropertyIndex, ENTITY_GEN_MAX};

verus! {

/// Immutable borrow of the entity store.
pub struct EntitySnapshot<'a> {
    records: &'a [Option<EntityRecord>],
    properties: &'a [u32],
    generations: &'a [u32],
    manifest: &'a EntityManifest<u32>,
    next_slot: u32,
    property_count: usize,
}

/// What a snapshot needs of the store state it borrows: records and
/// generations for the slots in use, properties for all of them, and each
/// record carrying its slot's ID.
pub open spec fn snapshot_input_ok(
    records: Seq<Option<EntityRecord>>,
    properties: Seq<u32>,
    generations: Seq<u32>,
    manifest: EntityManifest<u32>,
    next_slot: u32,
) -> bool {
    &&& manifest.is_valid()
    &&& next_slot <= records.len()
    &&& next_slot <= generations.len()
    &&& next_slot * manifest.property_defaults@.len() <= properties.len()
    &&& forall|s: int|
        0 <= s < next_slot && (#[trigger] records[s]) is Some ==> records[s].unwrap().id.slot_of()
            == s && records[s].unwrap().id.generation_of() == generations[s]
}

impl<'a> EntitySnapshot<'a> {
    /// The record in slot `s`, for slots in use.
    pub closed spec fn slot(&self, s: int) -> Option<(EntityId, Seq<i32>, u32)> {
        if 0 <= s < self.next_slot {
            opt_view(self.records@[s])
        } else {
            None
        }
    }

    /// The slots in use.
    pub closed spec fn slots_in_use(&self) -> nat {
        self.next_slot as nat
    }

    /// Generation of slot `s`.
    pub closed spec fn gen(&self, s: int) -> u32 {
        self.generations@[s]
    }

    /// The borrowed generation array.
    pub closed spec fn gens_view(&self) -> Seq<u32> {
        self.generations@
    }

    /// The borrowed property slab.
    pub closed spec fn props_view(&self) -> Seq<u32> {
        self.properties@
    }

    /// Property `p` of the entity in slot `s`.
    pub closed spec fn prop(&self, s: int, p: int) -> u32 {
        self.properties@[s * self.property_count + p]
    }

    /// The manifest.
    pub closed spec fn manifest_spec(&self) -> EntityManifest<u32> {
        *self.manifest
    }

    /// Number of properties per entity.
    pub open spec fn pc(&self) -> nat {
        self.manifest_spec().property_defaults@.len()
    }

    /// Whether `id` names the entity now in its slot.
    pub open spec fn is_live(&self, id: EntityId) -> bool {
        &&& id.slot_of() < self.slots_in_use()
        &&& self.gen(id.slot_of() as int) == id.generation_of()
        &&& self.slot(id.slot_of() as int) is Some
    }

    /// Whether slot `s` holds a record whose alive property is positive.
    pub open spec fn alive_at(&self, s: int) -> bool {
        &&& self.slot(s) is Some
        &&& bits_positive(self.prop(s, self.manifest_spec().alive_property.0 as int))
    }

    /// The records in use in slot order; with `only_alive`, only those whose
    /// alive property is positive.
    pub open spec fn records_where(&self, only_alive: bool) -> Seq<(EntityId, Seq<i32>, u32)> {
        present(
            Seq::new(self.slots_in_use(), |s: int| self.slot(s)),
            |s: int| !only_alive || self.alive_at(s),
        )
    }

    /// The invariant: the borrowed state fits the slots in use.
    pub closed spec fn wf(&self) -> bool {
        &&& snapshot_input_ok(
            self.records@,
            self.properties@,
            self.generations@,
            *self.manifest,
            self.next_slot,
        )
        &&& self.property_count == self.manifest.property_defaults@.len()
    }

    /// Create a snapshot of `next_slot` slots in use from store internals.
    pub fn new(
        records: &'a [Option<EntityRecord>],
        properties: &'a [u32],
        generations: &'a [u32],
        manifest: &'a EntityManifest<u32>,
        next_slot: u32,
    ) -> (s: Self)
        requires
            snapshot_input_ok(records@, properties@, generations@, *manifest, next_slot),
        ensures
            s.wf(),
            s.slots_in_use() == next_slot,
            s.manifest_spec() == *manifest,
            forall|i: int| 0 <= i < next_slot ==> #[trigger] s.slot(i) == opt_view(records@[i]),
            forall|i: int| 0 <= i < next_slot ==> #[trigger] s.gen(i) == generations@[i],
            forall|i: int, p: int|
                0 <= i < next_slot && 0 <= p < manifest.property_defaults@.len() ==> #[trigger] s.prop(
                    i,
                    p,
                ) == properties@[i * manifest.property_defaults@.len() + p],
    {
        EntitySnapshot {
            records,
            properties,
            generations,
            manifest,
            next_slot,
            property_count: manifest.property_defaults.len(),
        }
    }

    /// The slot of `id` if it names a live entity.
    fn lookup_slot(&self, id: EntityId) -> (r: Option<usize>)
        requires
            self.wf(),
        ensures
            match r {
                Some(s) => self.is_live(id) && s == id.slot_of(),
                None => !self.is_live(id),
            },
    {
        let slot = id.slot() as usize;
        if slot >= self.next_slot as usize || self.generations[slot] != id.generation() {
            return None;
        }
        match &self.records[slot] {
            Some(_) => Some(slot),
            None => None,
        }
    }

    /// The offset of property `property` of slot `slot`, if in range.
    fn property_offset(&self, slot: u32, property: PropertyIndex) -> (r: Option<usize>)
        requires
            self.wf(),
            slot < self.slots_in_use(),
        ensures
            match r {
                Some(off) => property.0 < self.pc() && off == slot * self.pc() + property.0 && off
                    < self.props_view().len(),
                None => property.0 >= self.pc(),
            },
    {
        if property.0 as usize >= self.property_count {
            return None;
        }
        let _len = self.properties.len();
        proof {
            assert(slot * self.property_count + property.0 < self.next_slot * self.property_count)
                by (nonlinear_arith)
                requires
                    slot < self.next_slot,
                    property.0 < self.property_count,
            ;
        }
        Some(slot as usize * self.property_count + property.0 as usize)
    }

    /// Look up a live entity by ID.
    pub fn get(&self, id: EntityId) -> (r: Option<&EntityRecord>)
        requires
            self.wf(),
        ensures
            match r {
                Some(rec) => self.is_live(id) && self.slot(id.slot_of() as int) == Some(rec@),
                None => !self.is_live(id),
            },
    {
        match self.lookup_slot(id) {
            Some(slot) => match &self.records[slot] {
                Some(rec) => Some(rec),
                None => None,
            },
            None => None,
        }
    }

    /// Property `property` of a live entity; `None` for an unknown entity
    /// or a property out of range.
    pub fn property(&self, id: EntityId, property: PropertyIndex) -> (r: Option<u32>)
        requires
            self.wf(),
        ensures
            r == if self.is_live(id) && property.0 < self.pc() {
                Some(self.prop(id.slot_of() as int, property.0 as int))
            } else {
                None::<u32>
            },
    {
        let slot = match self.lookup_slot(id) {
            Some(s) => s,
            None => {
                return None;
            },
        };
        match self.property_offset(slot as u32, property) {
            Some(off) => Some(self.properties[off]),
            None => None,
        }
    }

    /// Whether `id` names a live entity whose alive property is positive.
    pub fn is_alive(&self, id: EntityId) -> (b: bool)
        requires
            self.wf(),
        ensures
            b == (self.is_live(id) && self.alive_at(id.slot_of() as int)),
    {
        let slot = match self.lookup_slot(id) {
            Some(s) => s,
            None => {
                return false;
            },
        };
        let alive_property = self.manifest.alive_property;
        match self.property_offset(slot as u32, alive_property) {
            Some(off) => is_positive(self.properties[off]),
            None => false,
        }
    }

    /// Whether slot `s` holds a record marked alive.
    fn alive_slot(&self, s: u32) -> (b: bool)
        requires
            self.wf(),
            s < self.slots_in_use(),
        ensures
            b == self.alive_at(s as int),
    {
        match &self.records[s as usize] {
            Some(_) => {},
            None => {
                return false;
            },
        }
        let alive_property = self.manifest.alive_property;
        match self.property_offset(s, alive_property) {
            Some(off) => is_positive(self.properties[off]),
            None => false,
        }
    }

    /// The property manifest.
    pub fn manifest(&self) -> (m: &EntityManifest<u32>)
        ensures
            *m == self.manifest_spec(),
    {
        self.manifest
    }

    /// Number of records in use whose alive property is positive.
    pub fn alive_count(&self) -> (n: u32)
        requires
            self.wf(),
        ensures
            n == count_alive(|s: int| self.alive_at(s), self.slots_in_use() as int),
    {
        let ghost alive = |s: int| self.alive_at(s);
        let mut n: u32 = 0;
        let mut s: u32 = 0;
        while s < self.next_slot
            invariant
                s <= self.next_slot,
                self.wf(),
                n == count_alive(alive, s as int),
                n <= s,
                alive == (|s: int| self.alive_at(s)),
            decreases self.next_slot - s,
        {
            if self.alive_slot(s) {
                n = n + 1;
            }
            s = s + 1;
        }
        n
    }

    /// The records in use, in slot order.
    pub fn iter_all(&self) -> (v: Vec<&EntityRecord>)
        requires
            self.wf(),
        ensures
            Seq::new(v@.len(), |i: int| v@[i]@) == self.records_where(false),
    {
        self.collect(false)
    }

    /// The records in use whose alive property is positive, in slot order.
    pub fn iter_alive(&self) -> (v: Vec<&EntityRecord>)
        requires
            self.wf(),
        ensures
            Seq::new(v@.len(), |i: int| v@[i]@) == self.records_where(true),
    {
        self.collect(true)
    }

    fn collect(&self, only_alive: bool) -> (v: Vec<&EntityRecord>)
        requires
            self.wf(),
        ensures
            Seq::new(v@.len(), |i: int| v@[i]@) == self.records_where(only_alive),
    {
        let ghost keep = |s: int| !only_alive || self.alive_at(s);
        let ghost slots = Seq::new(self.slots_in_use(), |s: int| self.slot(s));
        let mut v: Vec<&EntityRecord> = Vec::new();
        let mut s: u32 = 0;
        while s < self.next_slot
            invariant
                s <= self.next_slot,
                self.wf(),
                slots == Seq::new(self.slots_in_use(), |s: int| self.slot(s)),
                keep == (|s: int| !only_alive || self.alive_at(s)),
                Seq::new(v@.len(), |i: int| v@[i]@) == present(slots.subrange(0, s as int), keep),
            decreases self.next_slot - s,
        {
            proof {
                assert(slots.subrange(0, s + 1).drop_last() =~= slots.subrange(0, s as int));
                assert(slots.subrange(0, s + 1).last() == slots[s as int]);
            }
            let ghost before = v@;
            match &self.records[s as usize] {
                Some(rec) => {
                    let take = !only_alive || self.alive_slot(s);
                    if take {
                        v.push(rec);
                        proof {
                            assert(Seq::new(v@.len(), |i: int| v@[i]@) =~= Seq::new(
                                before.len(),
                                |i: int| before[i]@,
                            ).push(rec@));
                        }
                    }
                },
                None => {},
            }
            s = s + 1;
        }
        proof {
            assert(slots.subrange(0, slots.len() as int) =~= slots);
        }
        v
    }

    /// Property count per entity.
    pub fn property_count(&self) -> (n: usize)
        requires
            self.wf(),
        ensures
            n == self.pc(),
    {
        self.property_count
    }

    /// Read-only access to the generation array.
    pub fn generations(&self) -> (g: &[u32])
        ensures
            g@ == self.gens_view(),
    {
        self.generations
    }

    /// Read-only access to the property slab.
    pub fn properties(&self) -> (p: &[u32])
        ensures
            p@ == self.props_view(),
    {
        self.properties
    }
}

} // verus!
