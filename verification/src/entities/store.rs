//! Fixed-capacity entity storage.
//!
//! Property values are held as the bit patterns of `f32` values: a property
//! is "positive" exactly when the `f32` it encodes is greater than zero.
use vstd::prelude::*;

use crate::entities::coord_index::{CoordIndex, without};
use crate::entities::record::{EntityRecord, opt_view};
use crate::entities::snapshot::EntitySnapshot;
use crate::entities::staging::PropertyStaging;
use crate::entity::EntityManifest;
use crate::error::IngressError;
use crate::id::{EntityId, PropertyIndex, ENTITY_GEN_MAX};

verus! {

/// Bit pattern of the `f32` value `1.0`, stamped on the alive property at
/// spawn.
pub const ALIVE_BITS: u32 = 0x3F80_0000;

/// Bit pattern of the `f32` value `0.0`, stamped on the alive property at
/// despawn.
pub const DEAD_BITS: u32 = 0;

/// Largest number of entity slots: the slot space of an [`EntityId`].
pub const MAX_ENTITY_CAPACITY: u32 = 0x10_0000;

/// Whether the `f32` with bit pattern `b` is greater than zero: a clear
/// sign bit, a non-zero value, and not a NaN (`+inf` counts).
pub open spec fn bits_positive(b: u32) -> bool {
    0 < b && b <= 0x7F80_0000
}

/// Whether the `f32` with bit pattern `b` is greater than zero.
pub fn is_positive(b: u32) -> (r: bool)
    ensures
        r == bits_positive(b),
{
    0 < b && b <= 0x7F80_0000
}

/// `props` with the `defaults.len()` values from `base` on replaced by
/// `defaults`.
pub open spec fn with_defaults(props: Seq<u32>, base: int, defaults: Seq<u32>) -> Seq<u32> {
    Seq::new(
        props.len(),
        |i: int|
            if base <= i < base + defaults.len() {
                defaults[i - base]
            } else {
                props[i]
            },
    )
}

/// `props` after writing the overrides in order to the entity whose values
/// start at `base`, stopping at the first override whose property index
/// is not below `pc`.
pub open spec fn apply_overrides(
    props: Seq<u32>,
    base: int,
    pc: nat,
    ov: Seq<(PropertyIndex, u32)>,
) -> Seq<u32>
    decreases ov.len(),
{
    if ov.len() == 0 || ov[0].0.0 >= pc {
        props
    } else {
        apply_overrides(props.update(base + ov[0].0.0, ov[0].1), base, pc, ov.drop_first())
    }
}

/// Every override names a property below `pc`.
pub open spec fn overrides_fit(ov: Seq<(PropertyIndex, u32)>, pc: nat) -> bool {
    forall|i: int| 0 <= i < ov.len() ==> (#[trigger] ov[i]).0.0 < pc
}

/// Number of slots below `k` for which `alive` holds.
pub open spec fn count_alive(alive: spec_fn(int) -> bool, k: int) -> nat
    decreases k,
{
    if k <= 0 {
        0
    } else {
        count_alive(alive, k - 1) + if alive(k - 1) {
            1nat
        } else {
            0nat
        }
    }
}

/// The records present in `slots`, in slot order.
pub open spec fn present(
    slots: Seq<Option<(EntityId, Seq<i32>, u32)>>,
    keep: spec_fn(int) -> bool,
) -> Seq<(EntityId, Seq<i32>, u32)>
    decreases slots.len(),
{
    if slots.len() == 0 {
        Seq::empty()
    } else {
        let rest = present(slots.drop_last(), keep);
        match slots.last() {
            Some(r) => if keep(slots.len() - 1) {
                rest.push(r)
            } else {
                rest
            },
            None => rest,
        }
    }
}

proof fn lemma_offset_bound(slot: int, p: int, cap: int, pc: int)
    requires
        0 <= slot < cap,
        0 <= p < pc,
    ensures
        0 <= slot * pc + p < cap * pc,
        slot * pc + pc <= cap * pc,
        slot * pc >= 0,
{
    assert(slot * pc + pc <= cap * pc) by (nonlinear_arith)
        requires
            0 <= slot < cap,
            0 <= p < pc,
    ;
    assert(slot * pc >= 0) by (nonlinear_arith)
        requires
            0 <= slot,
            0 <= p < pc,
    ;
}

/// Fixed-capacity entity store with generational IDs and a property slab.
pub struct EntityStore {
    records: Vec<Option<EntityRecord>>,
    properties: Vec<u32>,
    generations: Vec<u32>,
    free_list: Vec<u32>,
    coord_index: CoordIndex,
    next_slot: u32,
    capacity: u32,
    manifest: EntityManifest<u32>,
}

/// Snapshot used to roll an [`EntityStore`] back to a previous state.
pub struct EntityStoreSnapshot {
    records: Vec<Option<EntityRecord>>,
    properties: Vec<u32>,
    generations: Vec<u32>,
    free_list: Vec<u32>,
    coord_index: CoordIndex,
    next_slot: u32,
}

impl EntityStoreSnapshot {
    /// The captured state.
    pub closed spec fn state(&self) -> StoreState {
        StoreState {
            slots: Seq::new(self.records@.len(), |i: int| opt_view(self.records@[i])),
            props: self.properties@,
            gens: self.generations@,
            free: self.free_list@,
            index: self.coord_index.view_entries(),
            next: self.next_slot as nat,
        }
    }
}

/// A copy of a vector of `u32`.
fn copy_u32s(a: &Vec<u32>) -> (r: Vec<u32>)
    ensures
        r@ == a@,
{
    let mut r: Vec<u32> = Vec::new();
    let mut i: usize = 0;
    while i < a.len()
        invariant
            i <= a@.len(),
            r@ == a@.subrange(0, i as int),
        decreases a@.len() - i,
    {
        r.push(a[i]);
        proof {
            assert(r@ =~= a@.subrange(0, i + 1));
        }
        i = i + 1;
    }
    assert(r@ =~= a@);
    r
}

/// The store's mutable state, as plain values: records, properties,
/// generations, free slots, the coordinate index entries, and the next
/// fresh slot.
pub struct StoreState {
    pub slots: Seq<Option<(EntityId, Seq<i32>, u32)>>,
    pub props: Seq<u32>,
    pub gens: Seq<u32>,
    pub free: Seq<u32>,
    pub index: Seq<(Seq<i32>, Seq<EntityId>)>,
    pub next: nat,
}

/// The invariant of a store's mutable state for a capacity and a manifest
/// shape: lengths fit the capacity; generations fit an [`EntityId`]; each
/// record carries its slot's ID; slots from the next fresh one on are
/// empty; free slots are distinct, already used, and empty.
pub open spec fn state_wf(st: StoreState, cap: nat, pc: nat) -> bool {
    &&& st.slots.len() == cap
    &&& st.gens.len() == cap
    &&& st.props.len() == cap * pc
    &&& st.next <= cap
    &&& forall|s: int| 0 <= s < cap ==> #[trigger] st.gens[s] <= ENTITY_GEN_MAX
    &&& forall|s: int|
        0 <= s < cap && (#[trigger] st.slots[s]) is Some ==> st.slots[s].unwrap().0.slot_of()
            == s && st.slots[s].unwrap().0.generation_of() == st.gens[s]
    &&& forall|s: int| st.next <= s < cap ==> (#[trigger] st.slots[s]) is None
    &&& forall|i: int|
        0 <= i < st.free.len() ==> #[trigger] st.free[i] < st.next && st.slots[st.free[i] as int]
            is None
    &&& forall|i: int, j: int| 0 <= i < j < st.free.len() ==> st.free[i] != st.free[j]
    &&& crate::entities::coord_index::entries_wf(st.index)
}

impl EntityStore {
    /// The mutable state.
    pub closed spec fn state(&self) -> StoreState {
        StoreState {
            slots: Seq::new(self.records@.len(), |i: int| opt_view(self.records@[i])),
            props: self.properties@,
            gens: self.generations@,
            free: self.free_list@,
            index: self.coord_index.view_entries(),
            next: self.next_slot as nat,
        }
    }

    /// Number of entity slots.
    pub closed spec fn cap(&self) -> nat {
        self.capacity as nat
    }

    /// The manifest.
    pub closed spec fn manifest_spec(&self) -> EntityManifest<u32> {
        self.manifest
    }

    /// Number of properties per entity.
    pub open spec fn pc(&self) -> nat {
        self.manifest_spec().property_defaults@.len()
    }

    /// The alive property's index.
    pub open spec fn alive(&self) -> int {
        self.manifest_spec().alive_property.0 as int
    }

    /// The record in slot `s`, if any.
    pub open spec fn slot(&self, s: int) -> Option<(EntityId, Seq<i32>, u32)> {
        self.state().slots[s]
    }

    /// Property `p` of the entity in slot `s`.
    pub open spec fn prop(&self, s: int, p: int) -> u32 {
        self.state().props[s * self.pc() + p]
    }

    /// The entities listed at coordinate `c`, in arrival order.
    pub open spec fn ids_at(&self, c: Seq<i32>) -> Seq<EntityId> {
        crate::entities::coord_index::lookup(self.state().index, c)
    }

    /// Whether `id` names the entity now in its slot.
    pub open spec fn is_live(&self, id: EntityId) -> bool {
        &&& id.slot_of() < self.cap()
        &&& self.state().gens[id.slot_of() as int] == id.generation_of()
        &&& self.slot(id.slot_of() as int) is Some
    }

    /// Whether slot `s` holds a record whose alive property is positive.
    pub open spec fn alive_at(&self, s: int) -> bool {
        &&& 0 <= s < self.cap()
        &&& self.slot(s) is Some
        &&& bits_positive(self.prop(s, self.alive()))
    }

    /// The records present in slot order; with `only_alive`, only those
    /// whose alive property is positive.
    pub open spec fn records_where(&self, only_alive: bool) -> Seq<(EntityId, Seq<i32>, u32)> {
        present(self.state().slots, |s: int| !only_alive || self.alive_at(s))
    }

    /// The slot the next spawn takes: the most recently freed one, else
    /// the next fresh one while any is left.
    pub open spec fn next_free_slot(&self) -> Option<u32> {
        if self.state().free.len() > 0 {
            Some(self.state().free.last())
        } else if self.state().next < self.cap() {
            Some(self.state().next as u32)
        } else {
            None
        }
    }

    /// The store's invariant: a valid manifest, a capacity within the
    /// slot space, and well-formed state.
    pub closed spec fn wf(&self) -> bool {
        &&& self.manifest.is_valid()
        &&& 0 < self.capacity <= MAX_ENTITY_CAPACITY
        &&& self.capacity * self.manifest.property_defaults@.len() <= usize::MAX
        &&& state_wf(self.state(), self.capacity as nat, self.manifest.property_defaults@.len())
        &&& self.coord_index.wf()
    }

    /// The store's invariant, as a fact about its views.
    pub proof fn lemma_wf(&self)
        requires
            self.wf(),
        ensures
            self.manifest_spec().is_valid(),
            0 < self.cap() <= MAX_ENTITY_CAPACITY,
            self.cap() * self.pc() <= usize::MAX,
            state_wf(self.state(), self.cap(), self.pc()),
    {
    }

    /// Create an empty store with the supplied entity capacity and manifest.
    pub fn new(capacity: u32, manifest: EntityManifest<u32>) -> (s: Self)
        requires
            capacity > 0,
            capacity <= MAX_ENTITY_CAPACITY,
            manifest.is_valid(),
            capacity * manifest.property_defaults@.len() <= usize::MAX,
        ensures
            s.wf(),
            s.cap() == capacity,
            s.manifest_spec() == manifest,
            s.state().slots.len() == capacity,
            s.state().gens.len() == capacity,
            s.state().props.len() == capacity * manifest.property_defaults@.len(),
            forall|i: int| 0 <= i < capacity ==> #[trigger] s.slot(i) is None,
            forall|i: int| 0 <= i < capacity * manifest.property_defaults@.len() ==> #[trigger] s.state().props[i] == 0,
            forall|i: int| 0 <= i < capacity ==> #[trigger] s.state().gens[i] == 0,
            s.state().free.len() == 0,
            s.state().next == 0,
            forall|c: Seq<i32>| #[trigger] s.ids_at(c) == Seq::<EntityId>::empty(),
    {
        let pc = manifest.property_defaults.len();
        let total = capacity as usize * pc;
        let mut records: Vec<Option<EntityRecord>> = Vec::new();
        let mut generations: Vec<u32> = Vec::new();
        let mut i: u32 = 0;
        while i < capacity
            invariant
                i <= capacity,
                records@.len() == i,
                generations@.len() == i,
                forall|k: int| 0 <= k < i ==> (#[trigger] records@[k]) is None,
                forall|k: int| 0 <= k < i ==> #[trigger] generations@[k] == 0,
            decreases capacity - i,
        {
            records.push(None);
            generations.push(0);
            i = i + 1;
        }
        let mut properties: Vec<u32> = Vec::new();
        let mut j: usize = 0;
        while j < total
            invariant
                j <= total,
                properties@.len() == j,
                forall|k: int| 0 <= k < j ==> #[trigger] properties@[k] == 0,
            decreases total - j,
        {
            properties.push(0);
            j = j + 1;
        }
        let coord_index = CoordIndex::new();
        let s = EntityStore {
            records,
            properties,
            generations,
            free_list: Vec::new(),
            coord_index,
            next_slot: 0,
            capacity,
            manifest,
        };
        proof {
            assert(s.state().index =~= s.coord_index.view_entries());
            assert forall|c: Seq<i32>| #[trigger] s.ids_at(c) == Seq::<EntityId>::empty() by {
                assert(s.coord_index.ids_at(c) == Seq::<EntityId>::empty());
            }
        }
        s
    }

    /// Take the slot for a new entity: the most recently freed one, else
    /// the next fresh one; `EntityCapacityFull` when neither is left.
    fn allocate_slot(&mut self) -> (r: Result<u32, IngressError>)
        requires
            old(self).wf(),
        ensures
            match r {
                Ok(slot) => {
                    &&& old(self).next_free_slot() == Some(slot)
                    &&& if old(self).state().free.len() > 0 {
                        &&& final(self).state().free == old(self).state().free.drop_last()
                        &&& final(self).state().next == old(self).state().next
                    } else {
                        &&& final(self).state().free == old(self).state().free
                        &&& final(self).state().next == old(self).state().next + 1
                    }
                    &&& slot < old(self).cap()
                    &&& old(self).slot(slot as int) is None
                    &&& slot < final(self).state().next
                    &&& forall|i: int|
                        0 <= i < final(self).state().free.len() ==> #[trigger] final(self).state().free[i] != slot
                },
                Err(e) => old(self).next_free_slot() is None && e == IngressError::EntityCapacityFull
                    && *final(self) == *old(self),
            },
            final(self).state().slots == old(self).state().slots,
            final(self).state().props == old(self).state().props,
            final(self).state().gens == old(self).state().gens,
            final(self).state().index == old(self).state().index,
            final(self).cap() == old(self).cap(),
            final(self).manifest_spec() == old(self).manifest_spec(),
            final(self).coord_index == old(self).coord_index,
            final(self).records == old(self).records,
            final(self).properties == old(self).properties,
            final(self).generations == old(self).generations,
    {
        let ghost st = self.state();
        if self.free_list.len() > 0 {
            let slot = self.free_list.pop().unwrap();
            proof {
                assert(slot == st.free.last());
                assert(st.free[st.free.len() - 1] == slot);
                assert(self.state().free =~= st.free.drop_last());
                assert forall|i: int| 0 <= i < self.state().free.len() implies #[trigger] self.state().free[i] != slot by {
                    assert(self.state().free[i] == st.free[i]);
                }
            }
            return Ok(slot);
        }
        if self.next_slot >= self.capacity {
            return Err(IngressError::EntityCapacityFull);
        }
        let slot = self.next_slot;
        self.next_slot = self.next_slot + 1;
        Ok(slot)
    }

    /// The slot of `id` if it names a live entity.
    fn lookup_live_slot(&self, id: EntityId) -> (r: Option<usize>)
        requires
            self.wf(),
        ensures
            match r {
                Some(s) => self.is_live(id) && s == id.slot_of(),
                None => !self.is_live(id),
            },
    {
        let slot = id.slot() as usize;
        if slot >= self.records.len() || self.generations[slot] != id.generation() {
            return None;
        }
        match &self.records[slot] {
            Some(_) => Some(slot),
            None => None,
        }
    }

    /// The offset in the property slab of property `p` of slot `slot`.
    fn property_offset(&self, slot: u32, property: PropertyIndex) -> (r: Option<usize>)
        requires
            self.wf(),
        ensures
            match r {
                Some(off) => property.0 < self.pc() && slot < self.cap() && off == slot * self.pc()
                    + property.0 && off < self.state().props.len(),
                None => property.0 >= self.pc() || slot >= self.cap(),
            },
    {
        let pc = self.manifest.property_defaults.len();
        if property.0 as usize >= pc || slot >= self.capacity {
            return None;
        }
        proof {
            lemma_offset_bound(slot as int, property.0 as int, self.capacity as int, pc as int);
        }
        Some(slot as usize * pc + property.0 as usize)
    }

    /// Write `value` to property `property` of slot `slot`; false when
    /// either is out of range.
    fn set_property_at_slot(&mut self, slot: u32, property: PropertyIndex, value: u32) -> (ok: bool)
        requires
            old(self).wf(),
        ensures
            final(self).wf(),
            ok == (property.0 < old(self).pc() && slot < old(self).cap()),
            final(self).state().props == if ok {
                old(self).state().props.update(slot * old(self).pc() + property.0, value)
            } else {
                old(self).state().props
            },
            final(self).state().slots == old(self).state().slots,
            final(self).state().gens == old(self).state().gens,
            final(self).state().free == old(self).state().free,
            final(self).state().next == old(self).state().next,
            final(self).state().index == old(self).state().index,
            final(self).cap() == old(self).cap(),
            final(self).manifest_spec() == old(self).manifest_spec(),
    {
        match self.property_offset(slot, property) {
            Some(offset) => {
                self.properties.set(offset, value);
                true
            },
            None => false,
        }
    }

    /// Reset the properties of slot `slot` to the manifest defaults.
    fn write_defaults(&mut self, slot: u32)
        requires
            old(self).wf(),
            slot < old(self).cap(),
        ensures
            final(self).wf(),
            final(self).state().props == with_defaults(
                old(self).state().props,
                slot * old(self).pc(),
                old(self).manifest_spec().property_defaults@,
            ),
            final(self).state().slots == old(self).state().slots,
            final(self).state().gens == old(self).state().gens,
            final(self).state().free == old(self).state().free,
            final(self).state().next == old(self).state().next,
            final(self).state().index == old(self).state().index,
            final(self).cap() == old(self).cap(),
            final(self).manifest_spec() == old(self).manifest_spec(),
    {
        let pc = self.manifest.property_defaults.len();
        proof {
            lemma_offset_bound(slot as int, 0, self.capacity as int, pc as int);
        }
        let base = slot as usize * pc;
        let ghost before = self.properties@;
        let ghost defaults = self.manifest.property_defaults@;
        let mut j: usize = 0;
        while j < pc
            invariant
                pc == self.manifest.property_defaults@.len(),
                defaults == self.manifest.property_defaults@,
                base + pc <= self.properties@.len(),
                j <= pc,
                self.properties@.len() == before.len(),
                forall|i: int|
                    0 <= i < before.len() ==> #[trigger] self.properties@[i] == if base <= i < base
                        + j {
                        defaults[i - base]
                    } else {
                        before[i]
                    },
                self.wf(),
                self.records == old(self).records,
                self.generations == old(self).generations,
                self.free_list == old(self).free_list,
                self.next_slot == old(self).next_slot,
                self.coord_index == old(self).coord_index,
                self.capacity == old(self).capacity,
                self.manifest == old(self).manifest,
            decreases pc - j,
        {
            let v = self.manifest.property_defaults[j];
            self.properties.set(base + j, v);
            j = j + 1;
        }
        proof {
            assert(self.state().props =~= with_defaults(before, base as int, defaults));
        }
    }

    /// Spawn an entity at `coord` with optional property overrides.
    ///
    /// Takes the most recently freed slot, else the next fresh one
    /// (`EntityCapacityFull` when none is left). The slot's properties get
    /// the manifest defaults, then the overrides in order; an override
    /// naming a property out of range stops the spawn with `NotApplied`,
    /// and the slot taken stays unused. Otherwise the alive property is
    /// set to `1.0`, the record is stored and listed at `coord`.
    pub fn spawn(
        &mut self,
        coord: Vec<i32>,
        entity_type: u32,
        property_overrides: &[(PropertyIndex, u32)],
    ) -> (r: Result<EntityId, IngressError>)
        requires
            old(self).wf(),
        ensures
            final(self).wf(),
            final(self).cap() == old(self).cap(),
            final(self).manifest_spec() == old(self).manifest_spec(),
            final(self).state().gens == old(self).state().gens,
            match old(self).next_free_slot() {
                None => r == Err::<EntityId, _>(IngressError::EntityCapacityFull) && final(self).state() == old(self).state(),
                Some(slot) => {
                    let base = slot * old(self).pc();
                    let props = apply_overrides(
                        with_defaults(
                            old(self).state().props,
                            base,
                            old(self).manifest_spec().property_defaults@,
                        ),
                        base,
                        old(self).pc(),
                        property_overrides@,
                    );
                    &&& final(self).state().free == if old(self).state().free.len() > 0 {
                        old(self).state().free.drop_last()
                    } else {
                        old(self).state().free
                    }
                    &&& final(self).state().next == if old(self).state().free.len() > 0 {
                        old(self).state().next
                    } else {
                        old(self).state().next + 1
                    }
                    &&& if overrides_fit(property_overrides@, old(self).pc()) {
                        &&& r is Ok
                        &&& r->Ok_0.slot_of() == slot
                        &&& r->Ok_0.generation_of() == old(self).state().gens[slot as int]
                        &&& final(self).state().slots == old(self).state().slots.update(
                            slot as int,
                            Some((r->Ok_0, coord@, entity_type)),
                        )
                        &&& final(self).state().props == props.update(
                            base + old(self).alive(),
                            ALIVE_BITS,
                        )
                        &&& forall|c: Seq<i32>|
                            #[trigger] final(self).ids_at(c) == if c == coord@ {
                                old(self).ids_at(c).push(r->Ok_0)
                            } else {
                                old(self).ids_at(c)
                            }
                    } else {
                        &&& r == Err::<EntityId, _>(IngressError::NotApplied)
                        &&& final(self).state().slots == old(self).state().slots
                        &&& final(self).state().props == props
                        &&& final(self).state().index == old(self).state().index
                    }
                },
            },
    {
        let ghost old_state = self.state();
        let slot = match self.allocate_slot() {
            Ok(s) => s,
            Err(e) => {
                return Err(e);
            },
        };
        let generation = self.generations[slot as usize];
        proof {
            assert(self.state().gens[slot as int] == generation);
        }
        let id = EntityId::new(slot, generation);
        self.write_defaults(slot);
        let ghost base = slot * self.manifest.property_defaults@.len();
        let ghost pc = self.manifest.property_defaults@.len();
        let ghost target = apply_overrides(self.state().props, base, pc, property_overrides@);
        proof {
            assert(property_overrides@.subrange(0, property_overrides@.len() as int)
                =~= property_overrides@);
        }
        let mut i: usize = 0;
        while i < property_overrides.len()
            invariant
                self.wf(),
                old_state == old(self).state(),
                old(self).next_free_slot() == Some(slot),
                old(self).wf(),
                id.slot_of() == slot,
                id.generation_of() == old_state.gens[slot as int],
                base == slot * old(self).pc(),
                target == apply_overrides(
                    with_defaults(
                        old(self).state().props,
                        base,
                        old(self).manifest_spec().property_defaults@,
                    ),
                    base,
                    old(self).pc(),
                    property_overrides@,
                ),
                slot < self.cap(),
                pc == self.pc(),
                base == slot * pc,
                i <= property_overrides@.len(),
                forall|k: int| 0 <= k < i ==> (#[trigger] property_overrides@[k]).0.0 < pc,
                apply_overrides(self.state().props, base, pc, property_overrides@.subrange(
                    i as int,
                    property_overrides@.len() as int,
                )) == target,
                self.state().slots == old_state.slots,
                self.state().gens == old_state.gens,
                self.state().index == old_state.index,
                self.cap() == old(self).cap(),
                self.manifest_spec() == old(self).manifest_spec(),
                self.state().free == (if old_state.free.len() > 0 {
                    old_state.free.drop_last()
                } else {
                    old_state.free
                }),
                self.state().next == (if old_state.free.len() > 0 {
                    old_state.next
                } else {
                    old_state.next + 1
                }),
                slot < self.state().next,
                old_state.slots[slot as int] is None,
                forall|k: int|
                    0 <= k < self.state().free.len() ==> #[trigger] self.state().free[k] != slot,
            decreases property_overrides@.len() - i,
        {
            let (property, value) = property_overrides[i];
            let ghost rest = property_overrides@.subrange(i as int, property_overrides@.len() as int);
            proof {
                assert(rest[0] == property_overrides@[i as int]);
                assert(rest.drop_first() =~= property_overrides@.subrange(
                    i + 1,
                    property_overrides@.len() as int,
                ));
            }
            if !self.set_property_at_slot(slot, property, value) {
                proof {
                    assert(!overrides_fit(property_overrides@, pc)) by {
                        assert(property_overrides@[i as int].0.0 >= pc);
                    }
                    assert(self.state().props == target);
                    assert(self.state() == StoreState {
                        slots: old_state.slots,
                        props: target,
                        gens: old_state.gens,
                        free: self.state().free,
                        index: old_state.index,
                        next: self.state().next,
                    });
                }
                return Err(IngressError::NotApplied);
            }
            i = i + 1;
        }
        proof {
            assert(property_overrides@.subrange(
                property_overrides@.len() as int,
                property_overrides@.len() as int,
            ) =~= Seq::<(PropertyIndex, u32)>::empty());
            assert(self.state().props == target);
            assert(overrides_fit(property_overrides@, pc));
        }
        let alive_property = self.manifest.alive_property;
        let _ = self.set_property_at_slot(slot, alive_property, ALIVE_BITS);
        let ghost cv = coord@;
        let key = crate::entities::coord_index::copy_coord(&coord);
        let record = EntityRecord { id, coord, entity_type };
        self.records.set(slot as usize, Some(record));
        let ghost before_push = self.coord_index;
        self.coord_index.push(key, id);
        proof {
            let st = self.state();
            assert(before_push.view_entries() == old_state.index);
            assert forall|c: Seq<i32>|
                #[trigger] self.ids_at(c) == if c == cv {
                    crate::entities::coord_index::lookup(old_state.index, c).push(id)
                } else {
                    crate::entities::coord_index::lookup(old_state.index, c)
                } by {
                assert(self.coord_index.ids_at(c) == self.ids_at(c));
                assert(before_push.ids_at(c) == crate::entities::coord_index::lookup(
                    old_state.index,
                    c,
                ));
            }
            assert(st.slots =~= old_state.slots.update(slot as int, Some((id, cv, entity_type))));
            assert forall|s: int|
                0 <= s < st.slots.len() && (#[trigger] st.slots[s]) is Some implies st.slots[s].unwrap().0.slot_of()
                == s && st.slots[s].unwrap().0.generation_of() == st.gens[s] by {
                if s != slot {
                    assert(st.slots[s] == old_state.slots[s]);
                }
            }
            assert forall|k: int|
                0 <= k < st.free.len() implies #[trigger] st.free[k] < st.next && st.slots[st.free[k] as int]
                is None by {
                assert(st.free[k] != slot);
                if old_state.free.len() > 0 {
                    assert(st.free[k] == old_state.free[k]);
                } else {
                    assert(st.free[k] == old_state.free[k]);
                }
            }
            assert forall|i: int, j: int| 0 <= i < j < st.free.len() implies st.free[i] != st.free[j] by {
                assert(st.free[i] == old_state.free[i]);
                assert(st.free[j] == old_state.free[j]);
            }
        }
        Ok(id)
    }

    /// Despawn an entity: `UnknownEntity` unless `id` names a live one.
    /// Sets its alive property to `0.0`, removes its record and its index
    /// listing, and advances its slot's generation; the slot is freed for
    /// reuse unless the generation wrapped to 0, which retires it.
    pub fn despawn(&mut self, id: EntityId) -> (r: Result<(), IngressError>)
        requires
            old(self).wf(),
        ensures
            final(self).wf(),
            final(self).cap() == old(self).cap(),
            final(self).manifest_spec() == old(self).manifest_spec(),
            !old(self).is_live(id) ==> r == Err::<(), _>(IngressError::UnknownEntity) && final(self).state() == old(self).state(),
            old(self).is_live(id) ==> {
                let s = id.slot_of() as int;
                let g = if old(self).state().gens[s] == ENTITY_GEN_MAX {
                    0
                } else {
                    old(self).state().gens[s] + 1
                };
                let c = old(self).slot(s).unwrap().1;
                &&& r is Ok
                &&& final(self).state().slots == old(self).state().slots.update(s, None)
                &&& final(self).state().props == old(self).state().props.update(
                    s * old(self).pc() + old(self).alive(),
                    DEAD_BITS,
                )
                &&& final(self).state().gens == old(self).state().gens.update(s, g as u32)
                &&& final(self).state().free == if g != 0 {
                    old(self).state().free.push(id.slot_of())
                } else {
                    old(self).state().free
                }
                &&& final(self).state().next == old(self).state().next
                &&& forall|d: Seq<i32>|
                    #[trigger] final(self).ids_at(d) == if d == c {
                        without(old(self).ids_at(d), id)
                    } else {
                        old(self).ids_at(d)
                    }
            },
    {
        let ghost old_state = self.state();
        let slot = match self.lookup_live_slot(id) {
            Some(s) => s,
            None => {
                return Err(IngressError::UnknownEntity);
            },
        };
        let coord = match &self.records[slot] {
            Some(rec) => crate::entities::coord_index::copy_coord(&rec.coord),
            None => {
                return Err(IngressError::UnknownEntity);
            },
        };
        let alive_property = self.manifest.alive_property;
        let _ = self.set_property_at_slot(id.slot(), alive_property, DEAD_BITS);
        self.records.set(slot, None);
        let ghost before_remove = self.coord_index;
        self.coord_index.remove(&coord, id);
        proof {
            assert(before_remove.view_entries() == old_state.index);
            assert forall|d: Seq<i32>|
                #[trigger] self.coord_index.ids_at(d) == if d == coord@ {
                    without(crate::entities::coord_index::lookup(old_state.index, d), id)
                } else {
                    crate::entities::coord_index::lookup(old_state.index, d)
                } by {
                assert(before_remove.ids_at(d) == crate::entities::coord_index::lookup(
                    old_state.index,
                    d,
                ));
            }
        }
        let ghost after_remove = self.coord_index;
        let g = self.generations[slot];
        let g1: u32 = g + 1;
        let next_generation = g1 & ENTITY_GEN_MAX;
        assert((g1 & 0xFFFu32) == if g1 == 0x1000u32 {
            0u32
        } else {
            g1
        }) by (bit_vector)
            requires
                1u32 <= g1 <= 0x1000u32,
        ;
        self.generations.set(slot, next_generation);
        if next_generation != 0 {
            self.free_list.push(id.slot());
        }
        proof {
            let st = self.state();
            assert(self.coord_index == after_remove);
            assert forall|d: Seq<i32>| #[trigger] self.ids_at(d) == self.coord_index.ids_at(d) by {}
            assert(st.slots =~= old_state.slots.update(slot as int, None));
            assert forall|s: int|
                0 <= s < st.slots.len() && (#[trigger] st.slots[s]) is Some implies st.slots[s].unwrap().0.slot_of()
                == s && st.slots[s].unwrap().0.generation_of() == st.gens[s] by {
                assert(s != slot);
                assert(st.slots[s] == old_state.slots[s]);
            }
            assert forall|k: int|
                0 <= k < st.free.len() implies #[trigger] st.free[k] < st.next && st.slots[st.free[k] as int]
                is None by {
                if k < old_state.free.len() {
                    assert(st.free[k] == old_state.free[k]);
                }
            }
            assert forall|i: int, j: int| 0 <= i < j < st.free.len() implies st.free[i] != st.free[j] by {
                assert(st.free[i] == old_state.free[i]);
                if j < old_state.free.len() {
                    assert(st.free[j] == old_state.free[j]);
                } else {
                    assert(old_state.slots[old_state.free[i] as int] is None);
                }
            }
        }
        Ok(())
    }

    /// Move an entity: `UnknownEntity` unless `id` names a live one. Its
    /// listing leaves its old coordinate and is appended at `target_coord`.
    pub fn move_entity(&mut self, id: EntityId, target_coord: Vec<i32>) -> (r: Result<(), IngressError>)
        requires
            old(self).wf(),
        ensures
            final(self).wf(),
            final(self).cap() == old(self).cap(),
            final(self).manifest_spec() == old(self).manifest_spec(),
            !old(self).is_live(id) ==> r == Err::<(), _>(IngressError::UnknownEntity) && final(self).state() == old(self).state(),
            old(self).is_live(id) ==> {
                let s = id.slot_of() as int;
                let rec = old(self).slot(s).unwrap();
                &&& r is Ok
                &&& final(self).state().slots == old(self).state().slots.update(
                    s,
                    Some((rec.0, target_coord@, rec.2)),
                )
                &&& final(self).state().props == old(self).state().props
                &&& final(self).state().gens == old(self).state().gens
                &&& final(self).state().free == old(self).state().free
                &&& final(self).state().next == old(self).state().next
                &&& forall|d: Seq<i32>|
                    #[trigger] final(self).ids_at(d) == {
                        let removed = if d == rec.1 {
                            without(old(self).ids_at(d), id)
                        } else {
                            old(self).ids_at(d)
                        };
                        if d == target_coord@ {
                            removed.push(id)
                        } else {
                            removed
                        }
                    }
            },
    {
        let ghost old_state = self.state();
        let ghost old_index = self.coord_index;
        let slot = match self.lookup_live_slot(id) {
            Some(s) => s,
            None => {
                return Err(IngressError::UnknownEntity);
            },
        };
        let (old_coord, entity_type) = match &self.records[slot] {
            Some(rec) => (crate::entities::coord_index::copy_coord(&rec.coord), rec.entity_type),
            None => {
                return Err(IngressError::UnknownEntity);
            },
        };
        self.coord_index.remove(&old_coord, id);
        let ghost mid_index = self.coord_index;
        let key = crate::entities::coord_index::copy_coord(&target_coord);
        self.coord_index.push(key, id);
        let ghost tv = target_coord@;
        self.records.set(slot, Some(EntityRecord { id, coord: target_coord, entity_type }));
        proof {
            let st = self.state();
            crate::id::lemma_entity_id_round_trip(old_state.slots[slot as int].unwrap().0, id);
            assert(st.slots =~= old_state.slots.update(slot as int, Some((id, tv, entity_type))));
            assert forall|s: int|
                0 <= s < st.slots.len() && (#[trigger] st.slots[s]) is Some implies st.slots[s].unwrap().0.slot_of()
                == s && st.slots[s].unwrap().0.generation_of() == st.gens[s] by {
                if s != slot {
                    assert(st.slots[s] == old_state.slots[s]);
                }
            }
            assert forall|k: int|
                0 <= k < st.free.len() implies #[trigger] st.free[k] < st.next && st.slots[st.free[k] as int]
                is None by {
                assert(old_state.slots[old_state.free[k] as int] is None);
            }
            assert forall|d: Seq<i32>|
                #[trigger] self.ids_at(d) == {
                    let removed = if d == old_state.slots[slot as int].unwrap().1 {
                        without(old_index.ids_at(d), id)
                    } else {
                        old_index.ids_at(d)
                    };
                    if d == tv {
                        removed.push(id)
                    } else {
                        removed
                    }
                } by {
                assert(self.coord_index.ids_at(d) == self.ids_at(d));
                assert(mid_index.ids_at(d) == if d == old_coord@ {
                    without(old_index.ids_at(d), id)
                } else {
                    old_index.ids_at(d)
                });
            }
        }
        Ok(())
    }

    /// The structural record of a live entity.
    pub fn get(&self, id: EntityId) -> (r: Option<&EntityRecord>)
        requires
            self.wf(),
        ensures
            match r {
                Some(rec) => self.is_live(id) && self.slot(id.slot_of() as int) == Some(rec@),
                None => !self.is_live(id),
            },
    {
        match self.lookup_live_slot(id) {
            Some(slot) => match &self.records[slot] {
                Some(rec) => Some(rec),
                None => None,
            },
            None => None,
        }
    }

    /// Property `property` of a live entity; `None` for an unknown entity
    /// or a property out of range.
    pub fn property(&self, id: EntityId, property: PropertyIndex) -> (r: Option<u32>)
        requires
            self.wf(),
        ensures
            r == if self.is_live(id) && property.0 < self.pc() {
                Some(self.prop(id.slot_of() as int, property.0 as int))
            } else {
                None::<u32>
            },
    {
        let slot = match self.lookup_live_slot(id) {
            Some(s) => s,
            None => {
                return None;
            },
        };
        match self.property_offset(slot as u32, property) {
            Some(offset) => Some(self.properties[offset]),
            None => None,
        }
    }

    /// Set property `property` of a live entity: `UnknownEntity` for an
    /// unknown entity, `NotApplied` for a property out of range.
    pub fn set_property(&mut self, id: EntityId, property: PropertyIndex, value: u32) -> (r: Result<
        (),
        IngressError,
    >)
        requires
            old(self).wf(),
        ensures
            final(self).wf(),
            final(self).cap() == old(self).cap(),
            final(self).manifest_spec() == old(self).manifest_spec(),
            r == if !old(self).is_live(id) {
                Err::<(), _>(IngressError::UnknownEntity)
            } else if property.0 >= old(self).pc() {
                Err(IngressError::NotApplied)
            } else {
                Ok(())
            },
            final(self).state() == if r is Ok {
                StoreState {
                    props: old(self).state().props.update(
                        id.slot_of() * old(self).pc() + property.0,
                        value,
                    ),
                    ..old(self).state()
                }
            } else {
                old(self).state()
            },
    {
        let slot = match self.lookup_live_slot(id) {
            Some(s) => s,
            None => {
                return Err(IngressError::UnknownEntity);
            },
        };
        if self.set_property_at_slot(slot as u32, property, value) {
            Ok(())
        } else {
            Err(IngressError::NotApplied)
        }
    }

    /// The entities listed at `coord`, in arrival order.
    pub fn at_coord(&self, coord: &Vec<i32>) -> (ids: &[EntityId])
        requires
            self.wf(),
        ensures
            ids@ == self.ids_at(coord@),
    {
        self.coord_index.get(coord)
    }

    /// Whether slot `slot` holds a record whose alive property is positive.
    pub fn is_alive_at_slot(&self, slot: u32) -> (b: bool)
        requires
            self.wf(),
        ensures
            b == self.alive_at(slot as int),
    {
        if slot >= self.capacity {
            return false;
        }
        match &self.records[slot as usize] {
            Some(_) => {},
            None => {
                return false;
            },
        }
        let alive_property = self.manifest.alive_property;
        match self.property_offset(slot, alive_property) {
            Some(offset) => is_positive(self.properties[offset]),
            None => false,
        }
    }

    /// Number of live entities: records whose alive property is positive.
    pub fn alive_count(&self) -> (n: usize)
        requires
            self.wf(),
        ensures
            n == count_alive(|s: int| self.alive_at(s), self.cap() as int),
    {
        let ghost alive = |s: int| self.alive_at(s);
        let mut n: usize = 0;
        let mut s: u32 = 0;
        while s < self.capacity
            invariant
                s <= self.capacity,
                self.wf(),
                n == count_alive(alive, s as int),
                n <= s,
                alive == (|s: int| self.alive_at(s)),
            decreases self.capacity - s,
        {
            if self.is_alive_at_slot(s) {
                n = n + 1;
            }
            s = s + 1;
        }
        n
    }

    /// The records present, in slot order.
    pub fn iter_all(&self) -> (v: Vec<&EntityRecord>)
        requires
            self.wf(),
        ensures
            Seq::new(v@.len(), |i: int| v@[i]@) == self.records_where(false),
    {
        self.collect_records(false)
    }

    /// The records of live entities, in slot order.
    pub fn iter_alive(&self) -> (v: Vec<&EntityRecord>)
        requires
            self.wf(),
        ensures
            Seq::new(v@.len(), |i: int| v@[i]@) == self.records_where(true),
    {
        self.collect_records(true)
    }

    fn collect_records(&self, only_alive: bool) -> (v: Vec<&EntityRecord>)
        requires
            self.wf(),
        ensures
            Seq::new(v@.len(), |i: int| v@[i]@) == self.records_where(only_alive),
    {
        let ghost keep = |s: int| !only_alive || self.alive_at(s);
        let ghost slots = self.state().slots;
        let mut v: Vec<&EntityRecord> = Vec::new();
        let mut s: usize = 0;
        while s < self.records.len()
            invariant
                s <= self.records@.len(),
                self.wf(),
                slots == self.state().slots,
                slots.len() == self.records@.len(),
                keep == (|s: int| !only_alive || self.alive_at(s)),
                Seq::new(v@.len(), |i: int| v@[i]@) == present(slots.subrange(0, s as int), keep),
            decreases self.records@.len() - s,
        {
            proof {
                assert(slots.subrange(0, s + 1).drop_last() =~= slots.subrange(0, s as int));
                assert(slots.subrange(0, s + 1).last() == slots[s as int]);
            }
            let ghost before = v@;
            match &self.records[s] {
                Some(rec) => {
                    let take = !only_alive || self.is_alive_at_slot(s as u32);
                    if take {
                        v.push(rec);
                        proof {
                            assert(Seq::new(v@.len(), |i: int| v@[i]@) =~= Seq::new(
                                before.len(),
                                |i: int| before[i]@,
                            ).push(rec@));
                        }
                    }
                },
                None => {},
            }
            s = s + 1;
        }
        proof {
            assert(slots.subrange(0, slots.len() as int) =~= slots);
        }
        v
    }

    /// An immutable snapshot of the slots in use.
    pub fn snapshot(&self) -> (snap: EntitySnapshot<'_>)
        requires
            self.wf(),
        ensures
            snap.wf(),
            snap.slots_in_use() == self.state().next,
            snap.manifest_spec() == self.manifest_spec(),
            forall|i: int| 0 <= i < self.state().next ==> #[trigger] snap.slot(i) == self.slot(i),
            forall|i: int| 0 <= i < self.state().next ==> #[trigger] snap.gen(i) == self.state().gens[i],
            forall|i: int, p: int|
                0 <= i < self.state().next && 0 <= p < self.pc() ==> #[trigger] snap.prop(i, p)
                    == self.prop(i, p),
    {
        proof {
            let pc = self.manifest.property_defaults@.len();
            assert(self.next_slot * pc <= self.capacity * pc) by (nonlinear_arith)
                requires
                    self.next_slot <= self.capacity,
            ;
            assert forall|s: int|
                0 <= s < self.next_slot && (#[trigger] self.records@[s]) is Some implies self.records@[s].unwrap().id.slot_of()
                == s && self.records@[s].unwrap().id.generation_of() == self.generations@[s] by {
                assert(self.state().slots[s] == opt_view(self.records@[s]));
            }
        }
        EntitySnapshot::new(
            self.records.as_slice(),
            self.properties.as_slice(),
            self.generations.as_slice(),
            &self.manifest,
            self.next_slot,
        )
    }

    /// Capture all mutable store state for rollback.
    pub fn snapshot_for_rollback(&self) -> (snap: EntityStoreSnapshot)
        requires
            self.wf(),
        ensures
            snap.state() == self.state(),
            state_wf(snap.state(), self.cap(), self.pc()),
    {
        let mut records: Vec<Option<EntityRecord>> = Vec::new();
        let mut i: usize = 0;
        while i < self.records.len()
            invariant
                i <= self.records@.len(),
                records@.len() == i,
                forall|k: int| 0 <= k < i ==> #[trigger] opt_view(records@[k]) == opt_view(self.records@[k]),
            decreases self.records@.len() - i,
        {
            let r = match &self.records[i] {
                Some(rec) => Some(rec.copy()),
                None => None,
            };
            records.push(r);
            i = i + 1;
        }
        let snap = EntityStoreSnapshot {
            records,
            properties: copy_u32s(&self.properties),
            generations: copy_u32s(&self.generations),
            free_list: copy_u32s(&self.free_list),
            coord_index: self.coord_index.copy(),
            next_slot: self.next_slot,
        };
        proof {
            assert(snap.state().slots =~= self.state().slots);
        }
        snap
    }

    /// Restore a previously captured rollback snapshot of a store of the
    /// same capacity and manifest.
    pub fn restore_from_snapshot(&mut self, snapshot: EntityStoreSnapshot)
        requires
            old(self).wf(),
            state_wf(snapshot.state(), old(self).cap(), old(self).pc()),
        ensures
            final(self).wf(),
            final(self).state() == snapshot.state(),
            final(self).cap() == old(self).cap(),
            final(self).manifest_spec() == old(self).manifest_spec(),
    {
        let ghost st = snapshot.state();
        self.records = snapshot.records;
        self.properties = snapshot.properties;
        self.generations = snapshot.generations;
        self.free_list = snapshot.free_list;
        self.coord_index = snapshot.coord_index;
        self.next_slot = snapshot.next_slot;
        proof {
            assert(self.state().slots =~= st.slots);
        }
    }

    /// Apply the staged property values to the property slab: each value
    /// staged at a flat index within the slab replaces it.
    pub fn apply_staged_properties(&mut self, staging: &PropertyStaging)
        requires
            old(self).wf(),
            staging.wf(),
        ensures
            final(self).wf(),
            final(self).cap() == old(self).cap(),
            final(self).manifest_spec() == old(self).manifest_spec(),
            final(self).state().props.len() == old(self).state().props.len(),
            forall|i: int|
                0 <= i < old(self).state().props.len() ==> #[trigger] final(self).state().props[i]
                    == if i < staging.total() && staging.staged()[i] is Some {
                    staging.staged()[i].unwrap()
                } else {
                    old(self).state().props[i]
                },
            final(self).state().slots == old(self).state().slots,
            final(self).state().gens == old(self).state().gens,
            final(self).state().free == old(self).state().free,
            final(self).state().next == old(self).state().next,
            final(self).state().index == old(self).state().index,
    {
        staging.apply_to(&mut self.properties);
    }

    /// The configured capacity.
    pub fn capacity(&self) -> (c: u32)
        ensures
            c == self.cap(),
    {
        self.capacity
    }

    /// This store's entity manifest.
    pub fn manifest(&self) -> (m: &EntityManifest<u32>)
        ensures
            *m == self.manifest_spec(),
    {
        &self.manifest
    }
}

/// Restoring the snapshot taken for rollback gives back the state the
/// store had when it was taken, whatever happened in between.
pub proof fn lemma_rollback_restores(
    before: EntityStore,
    snap: EntityStoreSnapshot,
    after: EntityStore,
)
    requires
        snap.state() == before.state(),
        after.state() == snap.state(),
    ensures
        after.state() == before.state(),
{
}

} // verus!
