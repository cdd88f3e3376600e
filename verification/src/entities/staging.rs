//! Property staging: the write buffer for entity property mutations made
//! during a tick.
//!
//! Values sit in a flat slab indexed by `slot * property_count + property`,
//! and a bitset of 64-bit words records which of them were written.
use vstd::prelude::*;

use crate::field_set::{bits_contain, lemma_set_bit, lemma_test_bit, lemma_zero, word_has};
use crate::id::{EntityId, PropertyIndex};

verus! {

/// Number of 64-bit words needed for `n` bits.
pub open spec fn words_for(n: nat) -> nat {
    ((n + 63) / 64) as nat
}

/// Write buffer for entity property mutations during a tick.
pub struct PropertyStaging {
    values: Vec<u32>,
    written: Vec<u64>,
    max_entities: u32,
    property_count: u32,
}

impl PropertyStaging {
    /// Number of `(entity, property)` pairs.
    pub closed spec fn total(&self) -> nat {
        (self.max_entities * self.property_count) as nat
    }

    /// For each flat index `slot * property_count + property`, the staged
    /// value, or `None` when none was written since the last reset.
    pub closed spec fn staged(&self) -> Seq<Option<u32>> {
        Seq::new(
            self.total(),
            |i: int|
                if bits_contain(self.written@, i) {
                    Some(self.values@[i])
                } else {
                    None
                },
        )
    }

    /// Entity slots covered.
    pub closed spec fn max_entities_spec(&self) -> u32 {
        self.max_entities
    }

    /// Properties per entity.
    pub closed spec fn property_count_spec(&self) -> u32 {
        self.property_count
    }

    /// The flat index of property `p` of entity slot `slot`.
    pub open spec fn flat(&self, slot: u32, p: u32) -> int {
        slot * self.property_count_spec() + p
    }

    /// The invariant: one value per pair, one bit per pair.
    pub closed spec fn wf(&self) -> bool {
        &&& self.total() <= usize::MAX
        &&& self.values@.len() == self.total()
        &&& self.written@.len() == words_for(self.total())
    }

    /// Create a staging buffer for `max_entities` slots of
    /// `property_count` properties, with nothing staged.
    pub fn new(max_entities: u32, property_count: u32) -> (s: Self)
        requires
            max_entities * property_count <= usize::MAX,
        ensures
            s.wf(),
            s.max_entities_spec() == max_entities,
            s.property_count_spec() == property_count,
            s.staged() == Seq::new((max_entities * property_count) as nat, |i: int| None::<u32>),
    {
        let total = max_entities as usize * property_count as usize;
        let words = total / 64 + if total % 64 != 0 {
            1
        } else {
            0
        };
        let mut values: Vec<u32> = Vec::new();
        let mut i: usize = 0;
        while i < total
            invariant
                i <= total,
                values@.len() == i,
            decreases total - i,
        {
            values.push(0);
            i = i + 1;
        }
        let mut written: Vec<u64> = Vec::new();
        let mut j: usize = 0;
        while j < words
            invariant
                j <= words,
                written@.len() == j,
                forall|k: int| 0 <= k < j ==> #[trigger] written@[k] == 0,
            decreases words - j,
        {
            written.push(0);
            j = j + 1;
        }
        let s = PropertyStaging { values, written, max_entities, property_count };
        proof {
            assert forall|k: int| 0 <= k < total implies !bits_contain(s.written@, k) by {
                lemma_zero((k % 64) as u64);
            }
            assert(s.staged() =~= Seq::new((max_entities * property_count) as nat, |i: int| None::<u32>));
        }
        s
    }

    /// The flat index of `(id, property)`, if both are in range.
    fn flat_index(&self, id: EntityId, property: PropertyIndex) -> (r: Option<usize>)
        requires
            self.wf(),
        ensures
            match r {
                Some(f) => id.slot_of() < self.max_entities_spec() && property.0
                    < self.property_count_spec() && f == self.flat(id.slot_of(), property.0) && f
                    < self.total(),
                None => id.slot_of() >= self.max_entities_spec() || property.0
                    >= self.property_count_spec(),
            },
    {
        let slot = id.slot();
        if slot >= self.max_entities || property.0 >= self.property_count {
            return None;
        }
        proof {
            assert(slot * self.property_count + property.0 < self.max_entities * self.property_count)
                by (nonlinear_arith)
                requires
                    slot < self.max_entities,
                    property.0 < self.property_count,
            ;
        }
        Some(slot as usize * self.property_count as usize + property.0 as usize)
    }

    /// Stage `value` for `(id, property)`; false when the slot or property
    /// is out of range.
    pub fn set(&mut self, id: EntityId, property: PropertyIndex, value: u32) -> (ok: bool)
        requires
            old(self).wf(),
        ensures
            final(self).wf(),
            ok == (id.slot_of() < old(self).max_entities_spec() && property.0
                < old(self).property_count_spec()),
            final(self).staged() == if ok {
                old(self).staged().update(old(self).flat(id.slot_of(), property.0), Some(value))
            } else {
                old(self).staged()
            },
            final(self).max_entities_spec() == old(self).max_entities_spec(),
            final(self).property_count_spec() == old(self).property_count_spec(),
    {
        let flat = match self.flat_index(id, property) {
            Some(f) => f,
            None => {
                return false;
            },
        };
        let ghost before = self.staged();
        self.values.set(flat, value);
        let w = flat / 64;
        let b = (flat % 64) as u64;
        let word = self.written[w];
        self.written.set(w, word | (1u64 << b));
        proof {
            assert forall|i: int| 0 <= i < self.total() implies #[trigger] self.staged()[i] == (
            if i == flat {
                Some(value)
            } else {
                before[i]
            }) by {
                lemma_set_bit(word, b, (i % 64) as u64);
                if i / 64 == w {
                    assert(bits_contain(self.written@, i) == (bits_contain(old(self).written@, i)
                        || i % 64 == b));
                    if i % 64 == b {
                        assert(i == flat);
                    }
                }
            }
            assert(self.staged() =~= before.update(flat as int, Some(value)));
        }
        true
    }

    /// The value staged for `(id, property)`; `None` when none was written
    /// or either is out of range.
    pub fn get(&self, id: EntityId, property: PropertyIndex) -> (r: Option<u32>)
        requires
            self.wf(),
        ensures
            r == if id.slot_of() < self.max_entities_spec() && property.0
                < self.property_count_spec() {
                self.staged()[self.flat(id.slot_of(), property.0)]
            } else {
                None::<u32>
            },
    {
        let flat = match self.flat_index(id, property) {
            Some(f) => f,
            None => {
                return None;
            },
        };
        let w = flat / 64;
        let b = (flat % 64) as u64;
        let word = self.written[w];
        proof {
            lemma_test_bit(word, b);
        }
        if word & (1u64 << b) == 0 {
            return None;
        }
        Some(self.values[flat])
    }

    /// Clear all staged writes.
    pub fn reset(&mut self)
        requires
            old(self).wf(),
        ensures
            final(self).wf(),
            final(self).staged() == Seq::new(old(self).total(), |i: int| None::<u32>),
            final(self).max_entities_spec() == old(self).max_entities_spec(),
            final(self).property_count_spec() == old(self).property_count_spec(),
    {
        let mut j: usize = 0;
        while j < self.written.len()
            invariant
                j <= self.written@.len(),
                self.written@.len() == old(self).written@.len(),
                self.values == old(self).values,
                self.max_entities == old(self).max_entities,
                self.property_count == old(self).property_count,
                forall|k: int| 0 <= k < j ==> #[trigger] self.written@[k] == 0,
            decreases self.written@.len() - j,
        {
            self.written.set(j, 0);
            j = j + 1;
        }
        proof {
            assert forall|k: int| 0 <= k < self.total() implies !bits_contain(self.written@, k) by {
                lemma_zero((k % 64) as u64);
            }
            assert(self.staged() =~= Seq::new(old(self).total(), |i: int| None::<u32>));
        }
    }

    /// Write every staged value into `properties` at its flat index, where
    /// the slab is long enough; other entries stay.
    pub fn apply_to(&self, properties: &mut Vec<u32>)
        requires
            self.wf(),
        ensures
            final(properties)@.len() == old(properties)@.len(),
            forall|i: int|
                0 <= i < old(properties)@.len() ==> #[trigger] final(properties)@[i] == if i
                    < self.total() && self.staged()[i] is Some {
                    self.staged()[i].unwrap()
                } else {
                    old(properties)@[i]
                },
    {
        let total = self.values.len();
        let mut f: usize = 0;
        while f < total
            invariant
                total == self.total(),
                self.wf(),
                f <= total,
                properties@.len() == old(properties)@.len(),
                forall|i: int|
                    0 <= i < old(properties)@.len() ==> #[trigger] properties@[i] == if i < f
                        && self.staged()[i] is Some {
                        self.staged()[i].unwrap()
                    } else {
                        old(properties)@[i]
                    },
            decreases total - f,
        {
            let w = f / 64;
            let b = (f % 64) as u64;
            let word = self.written[w];
            proof {
                lemma_test_bit(word, b);
            }
            if word & (1u64 << b) != 0 && f < properties.len() {
                properties.set(f, self.values[f]);
            }
            f = f + 1;
        }
    }

    /// Maximum entities this staging buffer supports.
    pub fn max_entities(&self) -> (n: u32)
        ensures
            n == self.max_entities_spec(),
    {
        self.max_entities
    }

    /// Property count per entity.
    pub fn property_count(&self) -> (n: u32)
        ensures
            n == self.property_count_spec(),
    {
        self.property_count
    }
}

} // verus!
