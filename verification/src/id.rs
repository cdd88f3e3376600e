//! Strongly-typed identifiers.
use vstd::prelude::*;

verus! {

/// Identifies a field within a simulation world; `FieldId(n)` is the n-th field.
#[derive(Clone, Copy, Debug, PartialEq, Eq, Structural, Hash, PartialOrd, Ord)]
pub struct FieldId(pub u32);

/// Identifies a space (spatial topology) within a simulation world.
#[derive(Clone, Copy, Debug, PartialEq, Eq, Structural, Hash, PartialOrd, Ord)]
pub struct SpaceId(pub u32);

/// Unique per-instance identifier for a space object.
///
/// Identifiers are drawn from a monotonic counter, so two instances drawn
/// from the same counter never share an identifier.
#[derive(Clone, Copy, Debug, PartialEq, Eq, Structural, Hash, PartialOrd, Ord)]
pub struct SpaceInstanceId(u64);

impl SpaceInstanceId {
    /// The raw value of this identifier.
    pub closed spec fn value(self) -> u64 {
        self.0
    }

    /// Draw a fresh identifier from `counter`, advancing the counter.
    ///
    /// Every identifier drawn from one counter is strictly larger than all
    /// identifiers drawn from it before, hence never repeated.
    pub fn next(counter: &mut u64) -> (id: Self)
        requires
            *old(counter) < u64::MAX,
        ensures
            id.value() == *old(counter),
            *final(counter) == *old(counter) + 1,
    {
        let id = SpaceInstanceId(*counter);
        *counter = *counter + 1;
        id
    }

    /// The raw value of this identifier.
    pub fn get(&self) -> (v: u64)
        ensures
            v == self.value(),
    {
        self.0
    }
}

/// Number of low bits of an [`EntityId`] that hold the slot index.
pub const ENTITY_SLOT_BITS: u32 = 20;

/// Largest slot index an [`EntityId`] can hold (`2^20 - 1`).
pub const ENTITY_SLOT_MASK: u32 = 0xF_FFFF;

/// Largest generation an [`EntityId`] can hold (`2^12 - 1`).
pub const ENTITY_GEN_MAX: u32 = 0xFFF;

/// Identifies an entity: a 20-bit slot index in the low bits and a 12-bit
/// generation counter in the high bits of one `u32`.
#[derive(Clone, Copy, Debug, PartialEq, Eq, Structural, Hash, PartialOrd, Ord)]
pub struct EntityId(u32);

impl EntityId {
    /// The packed value.
    pub closed spec fn raw(self) -> u32 {
        self.0
    }

    /// The slot index: the packed value modulo `2^20`.
    pub open spec fn slot_of(self) -> u32 {
        (self.raw() % 0x10_0000) as u32
    }

    /// The generation: the packed value divided by `2^20`.
    pub open spec fn generation_of(self) -> u32 {
        (self.raw() / 0x10_0000) as u32
    }

    /// Create an entity ID from a slot index and generation counter.
    pub fn new(slot: u32, generation: u32) -> (id: Self)
        requires
            slot <= ENTITY_SLOT_MASK,
            generation <= ENTITY_GEN_MAX,
        ensures
            id.slot_of() == slot,
            id.generation_of() == generation,
            id.raw() == generation * 0x10_0000 + slot,
    {
        let raw = (generation << ENTITY_SLOT_BITS) | slot;
        assert(((generation << 20u32) | slot) == generation * 0x10_0000 + slot) by (bit_vector)
            requires
                slot <= 0xF_FFFFu32,
                generation <= 0xFFFu32,
        ;
        EntityId(raw)
    }

    /// Slot index encoded in the low 20 bits.
    pub fn slot(self) -> (s: u32)
        ensures
            s == self.slot_of(),
            s <= ENTITY_SLOT_MASK,
    {
        let r = self.0;
        assert(r & 0xF_FFFFu32 == r % 0x10_0000) by (bit_vector);
        r & ENTITY_SLOT_MASK
    }

    /// Generation counter encoded in the high 12 bits.
    pub fn generation(self) -> (g: u32)
        ensures
            g == self.generation_of(),
            g <= ENTITY_GEN_MAX,
    {
        let r = self.0;
        assert(r >> 20u32 == r / 0x10_0000) by (bit_vector);
        r >> ENTITY_SLOT_BITS
    }

    /// Raw packed `u32` representation.
    pub fn as_u32(self) -> (r: u32)
        ensures
            r == self.raw(),
    {
        self.0
    }

    /// Reconstruct an ID from its raw packed representation.
    pub fn from_u32(raw: u32) -> (id: Self)
        ensures
            id.raw() == raw,
    {
        EntityId(raw)
    }
}

/// Packing a slot and generation and reading them back gives them unchanged,
/// and two IDs are equal exactly when both slot and generation are equal.
pub proof fn lemma_entity_id_round_trip(a: EntityId, b: EntityId)
    ensures
        a.raw() == a.generation_of() * 0x10_0000 + a.slot_of(),
        a.generation_of() <= ENTITY_GEN_MAX,
        (a == b) <==> (a.slot_of() == b.slot_of() && a.generation_of() == b.generation_of()),
{
}

/// Indexes into an entity's property array.
#[derive(Clone, Copy, Debug, PartialEq, Eq, Structural, Hash, PartialOrd, Ord)]
pub struct PropertyIndex(pub u32);

/// Monotonically increasing tick counter.
#[derive(Clone, Copy, Debug, PartialEq, Eq, Structural, Hash, PartialOrd, Ord)]
pub struct TickId(pub u64);

/// Arena generation of a published snapshot.
#[derive(Clone, Copy, Debug, PartialEq, Eq, Structural, Hash, PartialOrd, Ord)]
pub struct WorldGenerationId(pub u64);

/// Version of the global simulation parameters.
#[derive(Clone, Copy, Debug, PartialEq, Eq, Structural, Hash, PartialOrd, Ord)]
pub struct ParameterVersion(pub u64);

/// Key of a global simulation parameter.
#[derive(Clone, Copy, Debug, PartialEq, Eq, Structural, Hash, PartialOrd, Ord)]
pub struct ParameterKey(pub u32);

/// Identifiers drawn one after another from one counter (each draw as
/// `SpaceInstanceId::next` ensures: the identifier is the counter, which then
/// grows by one) strictly increase, so no two of them are equal.
pub proof fn lemma_draws_increase(counters: Seq<u64>, ids: Seq<SpaceInstanceId>, i: int, j: int)
    requires
        counters.len() == ids.len() + 1,
        forall|k: int| 0 <= k < ids.len() ==> #[trigger] ids[k].value() == counters[k],
        forall|k: int| 0 <= k < ids.len() ==> #[trigger] counters[k + 1] == counters[k] + 1,
        0 <= i < j < ids.len(),
    ensures
        ids[i].value() < ids[j].value(),
        ids[i] != ids[j],
    decreases j - i,
{
    let k = j - 1;
    assert(counters[k + 1] == counters[k] + 1);
    assert(ids[j].value() == counters[j]);
    if i < j - 1 {
        lemma_draws_increase(counters, ids, i, j - 1);
    }
}

} // verus!
