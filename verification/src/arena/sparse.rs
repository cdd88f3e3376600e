//! Sparse slab allocator for copy-on-write fields.
use vstd::prelude::*;

use indexmap::IndexMap;

use crate::arena::handle::{FieldHandle, FieldLocation};
use crate::arena::segment::{alloc_fails, alloc_step, fresh_alloc, pool_state, SegmentList};
use crate::error::ArenaError;
use crate::id::FieldId;
use crate::index_map::{lemma_insert_keeps_unique, 
    index_map_contains_key, index_map_entries, index_map_get, index_map_get_index, index_map_insert,
    index_map_len, index_map_new, key_position, key_value, keys_unique, lemma_key_position_unique,
};

verus! {

/// A segment range that has been freed and is available for reuse.
///
/// Field sizes are fixed for the arena's lifetime, so reuse is exact-size.
#[derive(Clone, Copy, Debug, PartialEq, Eq, Structural)]
pub struct RetiredRange {
    /// Segment index within the sparse segment list.
    pub segment_index: u16,
    /// Offset within the segment, in elements.
    pub offset: u32,
    /// Length in elements.
    pub len: u32,
}

/// A single sparse allocation slot.
#[derive(Clone, Copy, Debug, PartialEq, Eq, Structural)]
pub struct SparseSlot {
    /// The field this slot belongs to.
    pub field: FieldId,
    /// Generation when this allocation was created.
    pub generation_created: u32,
    /// Segment index within the sparse segment list.
    pub segment_index: u16,
    /// Offset within the segment, in elements.
    pub offset: u32,
    /// Length in elements.
    pub len: u32,
    /// Whether this slot is currently live (not freed).
    pub live: bool,
}

/// Position of the first range of length `len` at or after `start`, if any.
pub open spec fn first_of_len_from(rs: Seq<RetiredRange>, len: u32, start: int) -> Option<int>
    decreases rs.len() - start,
{
    if start < 0 || start >= rs.len() {
        None
    } else if rs[start].len == len {
        Some(start)
    } else {
        first_of_len_from(rs, len, start + 1)
    }
}

/// Position of the first range of length `len`, if any.
pub open spec fn first_of_len(rs: Seq<RetiredRange>, len: u32) -> Option<int> {
    first_of_len_from(rs, len, 0)
}

/// The first match found from `start` lies in range and has length `len`;
/// no match means no range from `start` on has that length.
pub proof fn lemma_first_of_len(rs: Seq<RetiredRange>, len: u32, start: int)
    requires
        0 <= start,
    ensures
        match first_of_len_from(rs, len, start) {
            Some(k) => start <= k < rs.len() && rs[k].len == len && forall|j: int|
                start <= j < k ==> rs[j].len != len,
            None => forall|j: int| start <= j < rs.len() ==> rs[j].len != len,
        },
    decreases rs.len() - start,
{
    if start < rs.len() && rs[start].len != len {
        lemma_first_of_len(rs, len, start + 1);
    }
}

/// The sequence after `Vec::swap_remove(i)`: the last element takes the place of element `i`.
pub open spec fn swap_removed<A>(s: Seq<A>, i: int) -> Seq<A> {
    s.update(i, s.last()).drop_last()
}

/// The range a slot occupies.
pub open spec fn range_of(s: SparseSlot) -> RetiredRange {
    RetiredRange { segment_index: s.segment_index, offset: s.offset, len: s.len }
}

/// Slab allocator for sparse (copy-on-write) fields.
///
/// When a sparse field is allocated again, its previous allocation's slot is
/// marked dead and its segment range becomes pending. Pending ranges become
/// reusable only after `flush_retired()`, called once the published
/// descriptor no longer references them.
pub struct SparseSlab {
    slots: Vec<SparseSlot>,
    free_list: Vec<usize>,
    live_map: IndexMap<u32, usize>,
    retired_ranges: Vec<RetiredRange>,
    pending_retired: Vec<RetiredRange>,
}

impl SparseSlab {
    /// The live map's entries: field id and slot index, in first-allocation order.
    pub closed spec fn entries(&self) -> Seq<(u32, usize)> {
        index_map_entries(self.live_map)
    }

    /// The live slot of field `f`, if any.
    pub closed spec fn live_slot(&self, f: u32) -> Option<SparseSlot> {
        match key_value(self.entries(), f) {
            Some(i) => Some(self.slots@[i as int]),
            None => None,
        }
    }

    /// Ranges available for reuse.
    pub closed spec fn retired(&self) -> Seq<RetiredRange> {
        self.retired_ranges@
    }

    /// Ranges freed since the last flush.
    pub closed spec fn pending(&self) -> Seq<RetiredRange> {
        self.pending_retired@
    }

    /// Number of slots, live and dead.
    pub closed spec fn slot_count(&self) -> nat {
        self.slots@.len()
    }

    /// Number of dead slots awaiting reuse.
    pub closed spec fn free_slot_count(&self) -> nat {
        self.free_list@.len()
    }

    /// The fields with a live allocation.
    pub open spec fn live_fields_spec(&self) -> Set<u32> {
        Set::new(|f: u32| self.live_slot(f) is Some)
    }

    /// The live count is the number of distinct fields with a live
    /// allocation.
    pub proof fn lemma_live_count(&self)
        requires
            self.wf(),
        ensures
            self.live_fields_spec().finite(),
            self.live_count_spec() == self.live_fields_spec().len(),
    {
        let e = self.entries();
        let keys = e.map_values(|p: (u32, usize)| p.0);
        assert(keys.no_duplicates()) by {
            assert forall|i: int, j: int| 0 <= i < keys.len() && 0 <= j < keys.len() && i != j implies keys[i]
                != keys[j] by {
                if i < j {
                    assert(e[i].0 != e[j].0);
                } else {
                    assert(e[j].0 != e[i].0);
                }
            }
        }
        keys.unique_seq_to_set();
        assert forall|f: u32| #[trigger] self.live_fields_spec().contains(f) <==> keys.to_set().contains(f) by {
            if keys.contains(f) {
                let i = choose|i: int| 0 <= i < keys.len() && keys[i] == f;
                assert(e[i].0 == f);
            }
            if key_position(e, f) is Some {
                let i = key_position(e, f)->Some_0;
                assert(keys[i] == f);
            }
        }
        assert(self.live_fields_spec() =~= keys.to_set());
    }

    /// Number of fields with a live allocation.
    pub open spec fn live_count_spec(&self) -> nat {
        self.entries().len()
    }

    /// Every map entry names a distinct field and a live slot of that
    /// field; the free list holds distinct dead slots.
    pub closed spec fn wf(&self) -> bool {
        let e = self.entries();
        &&& keys_unique(e)
        &&& forall|i: int|
            0 <= i < e.len() ==> {
                &&& (#[trigger] e[i]).1 < self.slots@.len()
                &&& self.slots@[e[i].1 as int].live
                &&& self.slots@[e[i].1 as int].field.0 == e[i].0
            }
        &&& forall|i: int|
            0 <= i < self.free_list@.len() ==> {
                &&& (#[trigger] self.free_list@[i]) < self.slots@.len()
                &&& !self.slots@[self.free_list@[i] as int].live
            }
        &&& forall|i: int, j: int|
            0 <= i < j < self.free_list@.len() ==> self.free_list@[i] != self.free_list@[j]
    }

    /// Create an empty sparse slab.
    pub fn new() -> (s: Self)
        ensures
            s.wf(),
            s.entries() == Seq::<(u32, usize)>::empty(),
            s.retired() == Seq::<RetiredRange>::empty(),
            s.pending() == Seq::<RetiredRange>::empty(),
            s.slot_count() == 0,
            s.free_slot_count() == 0,
            forall|f: u32| #[trigger] s.live_slot(f) is None,
    {
        SparseSlab {
            slots: Vec::new(),
            free_list: Vec::new(),
            live_map: index_map_new(),
            retired_ranges: Vec::new(),
            pending_retired: Vec::new(),
        }
    }

    proof fn lemma_live_slot(&self, f: u32)
        requires
            self.wf(),
        ensures
            match key_position(self.entries(), f) {
                Some(i) => {
                    &&& 0 <= i < self.entries().len()
                    &&& self.entries()[i].0 == f
                    &&& self.live_slot(f) == Some(self.slots@[self.entries()[i].1 as int])
                    &&& self.slots@[self.entries()[i].1 as int].live
                    &&& self.slots@[self.entries()[i].1 as int].field.0 == f
                },
                None => self.live_slot(f) is None && forall|i: int|
                    0 <= i < self.entries().len() ==> self.entries()[i].0 != f,
            },
    {
        let e = self.entries();
        match key_position(e, f) {
            Some(i) => {
                assert(0 <= i < e.len() && e[i].0 == f);
            },
            None => {},
        }
    }

    /// Find the first retired range of length `len`.
    fn find_retired(&self, len: u32) -> (r: Option<usize>)
        ensures
            match first_of_len(self.retired(), len) {
                Some(i) => r is Some && r->Some_0 as int == i && 0 <= i < self.retired().len() && self.retired()[i].len == len,
                None => r is None,
            },
    {
        let n = self.retired_ranges.len();
        let mut i: usize = 0;
        while i < n
            invariant
                n == self.retired_ranges@.len(),
                i <= n,
                first_of_len(self.retired(), len) == first_of_len_from(self.retired(), len, i as int),
            decreases n - i,
        {
            if self.retired_ranges[i].len == len {
                return Some(i);
            }
            i = i + 1;
        }
        None
    }

    /// Allocate storage for a sparse field: a retired range of exactly
    /// `len` elements when one exists (the first such), else a fresh range
    /// bump-allocated from `segments`.
    ///
    /// If the field already has a live allocation, its slot is marked dead,
    /// put on the free list, and its range becomes pending. The new slot
    /// reuses a free slot when there is one.
    pub fn allocate<T: Copy>(
        &mut self,
        field: FieldId,
        len: u32,
        generation: u32,
        segments: &mut SegmentList<T>,
    ) -> (r: Result<FieldHandle, ArenaError>)
        requires
            old(self).wf(),
            old(segments).wf(),
        ensures
            final(self).wf(),
            final(segments).wf(),
            final(segments).size() == old(segments).size(),
            final(segments).max_count() == old(segments).max_count(),
            final(segments).fill() == old(segments).fill(),
            first_of_len(old(self).retired(), len) is Some ==> {
                let p = first_of_len(old(self).retired(), len)->Some_0;
                let rr = old(self).retired()[p];
                r == Ok::<FieldHandle, ArenaError>(
                    FieldHandle {
                        generation,
                        offset: rr.offset,
                        len,
                        location: FieldLocation::Sparse { segment_index: rr.segment_index },
                    },
                )
            },
            first_of_len(old(self).retired(), len) is Some ==> {
                &&& final(self).retired() == swap_removed(
                    old(self).retired(),
                    first_of_len(old(self).retired(), len)->Some_0,
                )
                &&& final(segments).segs() == old(segments).segs()
                &&& final(segments).current_spec() == old(segments).current_spec()
            },
            first_of_len(old(self).retired(), len) is None ==> final(self).retired() == old(self).retired(),
            final(segments).segs().len() >= old(segments).segs().len(),
            first_of_len(old(self).retired(), len) is None && r is Ok ==> {
                &&& r->Ok_0.location->Sparse_segment_index < final(segments).segs().len()
                &&& r->Ok_0.offset + len <= final(segments).size()
            },
            first_of_len(old(self).retired(), len) is None && r is Ok ==> fresh_alloc(
                *old(segments),
                *final(segments),
                r->Ok_0.location->Sparse_segment_index as int,
                r->Ok_0.offset as int,
                len as int,
            ),
            r is Err <==> first_of_len(old(self).retired(), len) is None && alloc_fails(
                *old(segments),
                len,
            ),
            r is Err ==> r->Err_0 is CapacityExceeded,
            first_of_len(old(self).retired(), len) is None && r is Ok ==> alloc_step(
                pool_state(*old(segments)),
                len as nat,
                old(segments).size(),
                old(segments).max_count(),
            ) == Some(pool_state(*final(segments))),
            first_of_len(old(self).retired(), len) is None && r is Err ==> {
                &&& *final(self) == *old(self)
                &&& *final(segments) == *old(segments)
            },
            r is Ok ==> r->Ok_0.generation == generation && r->Ok_0.len == len
                && r->Ok_0.location is Sparse,
            r is Ok ==> {
                let h = r->Ok_0;
                let was_live = old(self).live_slot(field.0) is Some;
                &&& final(self).live_slot(field.0) == Some(
                    SparseSlot {
                        field,
                        generation_created: generation,
                        segment_index: h.location->Sparse_segment_index,
                        offset: h.offset,
                        len,
                        live: true,
                    },
                )
                &&& forall|g: u32| g != field.0 ==> final(self).live_slot(g) == old(self).live_slot(g)
                &&& final(self).pending() == if was_live {
                    old(self).pending().push(range_of(old(self).live_slot(field.0)->Some_0))
                } else {
                    old(self).pending()
                }
                &&& final(self).live_count_spec() == old(self).live_count_spec() + if was_live {
                    0nat
                } else {
                    1nat
                }
                &&& final(self).slot_count() == old(self).slot_count() + if !was_live
                    && old(self).free_slot_count() == 0 {
                    1nat
                } else {
                    0nat
                }
            },
    {
        let ghost o_entries = self.entries();
        let found = self.find_retired(len);
        let (segment_index, offset) = match found {
            Some(pos) => {
                let rr = self.retired_ranges.swap_remove(pos);
                assert(first_of_len(old(self).retired(), len) == Some(pos as int));
                assert(rr == old(self).retired()[pos as int]);
                assert(self.retired() == swap_removed(old(self).retired(), pos as int));
                (rr.segment_index, rr.offset)
            },
            None => {
                match segments.allocate(len) {
                    Ok(p) => p,
                    Err(e) => return Err(e),
                }
            },
        };
        proof {
            self.lemma_live_slot(field.0);
        }
        let ghost was_live = key_position(o_entries, field.0) is Some;
        let ghost old_slot = if was_live {
            self.slots@[o_entries[key_position(o_entries, field.0)->Some_0].1 as int]
        } else {
            self.slots@[0]
        };
        match index_map_get(&self.live_map, field.0) {
            Some(old_idx) => {
                let prev = self.slots[old_idx];
                self.pending_retired.push(
                    RetiredRange { segment_index: prev.segment_index, offset: prev.offset, len: prev.len },
                );
                let dead = SparseSlot { live: false, ..prev };
                self.slots.set(old_idx, dead);
                self.free_list.push(old_idx);
                proof {
                    let e = self.entries();
                    assert forall|i: int| 0 <= i < self.free_list@.len() - 1 implies self.free_list@[i] != old_idx by {
                        let k = key_position(e, field.0)->Some_0;
                        assert(self.free_list@[i] == old(self).free_list@[i]);
                    }
                    assert forall|i: int| 0 <= i < e.len() && e[i].1 != old_idx implies (#[trigger] e[i]).1 < self.slots@.len() && self.slots@[e[i].1 as int].live && self.slots@[e[i].1 as int].field.0 == e[i].0 by {
                    }
                }
            },
            None => {},
        }
        let slot = SparseSlot {
            field,
            generation_created: generation,
            segment_index,
            offset,
            len,
            live: true,
        };
        let slot_idx = match self.free_list.pop() {
            Some(reuse_idx) => {
                self.slots.set(reuse_idx, slot);
                reuse_idx
            },
            None => {
                let idx = self.slots.len();
                self.slots.push(slot);
                idx
            },
        };
        let ghost pre_insert = self.entries();
        proof {
            lemma_insert_keeps_unique(index_map_entries(self.live_map), field.0, slot_idx);
        }
        let _ = index_map_insert(&mut self.live_map, field.0, slot_idx);
        proof {
            let e = self.entries();
            assert forall|i: int| 0 <= i < e.len() implies {
                &&& (#[trigger] e[i]).1 < self.slots@.len()
                &&& self.slots@[e[i].1 as int].live
                &&& self.slots@[e[i].1 as int].field.0 == e[i].0
            } by {
                if e[i].0 != field.0 {
                    assert(e[i] == pre_insert[i]);
                }
            }
            let k = if let Some(i) = key_position(pre_insert, field.0) {
                i
            } else {
                pre_insert.len() as int
            };
            assert(e[k].0 == field.0);
            lemma_key_position_unique(e, field.0, k);
            assert forall|g: u32| g != field.0 implies self.live_slot(g) == old(self).live_slot(g) by {
                if let Some(i) = key_position(o_entries, g) {
                    lemma_key_position_unique(e, g, i);
                } else {
                    if let Some(i) = key_position(e, g) {
                        assert(e[i].0 == g);
                    }
                }
            }
        }
        Ok(FieldHandle::new(generation, offset, len, FieldLocation::Sparse { segment_index }))
    }

    /// The current live handle for a sparse field.
    pub fn get_handle(&self, field: FieldId) -> (r: Option<FieldHandle>)
        requires
            self.wf(),
        ensures
            match self.live_slot(field.0) {
                Some(s) => r == Some(
                    FieldHandle {
                        generation: s.generation_created,
                        offset: s.offset,
                        len: s.len,
                        location: FieldLocation::Sparse { segment_index: s.segment_index },
                    },
                ),
                None => r is None,
            },
    {
        proof {
            self.lemma_live_slot(field.0);
        }
        let idx = match index_map_get(&self.live_map, field.0) {
            Some(i) => i,
            None => return None,
        };
        let slot = self.slots[idx];
        if !slot.live {
            return None;
        }
        Some(
            FieldHandle::new(
                slot.generation_created,
                slot.offset,
                slot.len,
                FieldLocation::Sparse { segment_index: slot.segment_index },
            ),
        )
    }

    /// Whether a field has a live sparse allocation.
    pub fn contains(&self, field: FieldId) -> (r: bool)
        requires
            self.wf(),
        ensures
            r == (self.live_slot(field.0) is Some),
    {
        proof {
            self.lemma_live_slot(field.0);
        }
        index_map_contains_key(&self.live_map, field.0)
    }

    /// Number of live allocations.
    pub fn live_count(&self) -> (n: usize)
        ensures
            n == self.live_count_spec(),
    {
        index_map_len(&self.live_map)
    }

    /// Total slots (live + dead).
    pub fn total_slots(&self) -> (n: usize)
        ensures
            n == self.slot_count(),
    {
        self.slots.len()
    }

    /// Number of free (dead) slots available for reuse.
    pub fn free_count(&self) -> (n: usize)
        ensures
            n == self.free_slot_count(),
    {
        self.free_list.len()
    }

    /// Promote pending retired ranges to the reusable pool.
    pub fn flush_retired(&mut self)
        requires
            old(self).wf(),
        ensures
            final(self).wf(),
            final(self).retired() == old(self).retired() + old(self).pending(),
            final(self).pending() == Seq::<RetiredRange>::empty(),
            final(self).entries() == old(self).entries(),
            forall|g: u32| final(self).live_slot(g) == old(self).live_slot(g),
            final(self).slot_count() == old(self).slot_count(),
            final(self).free_slot_count() == old(self).free_slot_count(),
    {
        self.retired_ranges.append(&mut self.pending_retired);
    }

    /// Number of segment ranges available for reuse.
    pub fn retired_range_count(&self) -> (n: usize)
        ensures
            n == self.retired().len(),
    {
        self.retired_ranges.len()
    }

    /// Number of segment ranges pending promotion (freed this tick).
    pub fn pending_retired_count(&self) -> (n: usize)
        ensures
            n == self.pending().len(),
    {
        self.pending_retired.len()
    }

    /// All live fields with their slots, in first-allocation order.
    pub fn live_fields(&self) -> (v: Vec<(FieldId, SparseSlot)>)
        requires
            self.wf(),
        ensures
            v@.len() == self.entries().len(),
            forall|i: int|
                0 <= i < v@.len() ==> (#[trigger] v@[i]).0.0 == self.entries()[i].0 && self.live_slot(
                    self.entries()[i].0,
                ) == Some(v@[i].1),
    {
        let n = index_map_len(&self.live_map);
        let mut v: Vec<(FieldId, SparseSlot)> = Vec::new();
        let mut i: usize = 0;
        while i < n
            invariant
                self.wf(),
                n == self.entries().len(),
                i <= n,
                v@.len() == i,
                forall|k: int|
                    0 <= k < i ==> (#[trigger] v@[k]).0.0 == self.entries()[k].0 && self.live_slot(
                        self.entries()[k].0,
                    ) == Some(v@[k].1),
            decreases n - i,
        {
            match index_map_get_index(&self.live_map, i) {
                Some((f, idx)) => {
                    proof {
                        lemma_key_position_unique(self.entries(), f, i as int);
                    }
                    v.push((FieldId(f), self.slots[idx]));
                },
                None => {},
            }
            i = i + 1;
        }
        v
    }
}

/// Allocating for field `f` adds `f` to the fields with a live allocation
/// and changes nothing else of them: over any sequence of successful
/// allocations from an empty slab, the live fields are exactly the distinct
/// fields allocated, and their count is the live count.
pub proof fn lemma_allocate_adds_field(before: SparseSlab, after: SparseSlab, f: u32)
    requires
        after.live_slot(f) is Some,
        forall|g: u32| g != f ==> #[trigger] after.live_slot(g) == before.live_slot(g),
    ensures
        after.live_fields_spec() == before.live_fields_spec().insert(f),
{
    assert(after.live_fields_spec() =~= before.live_fields_spec().insert(f));
}

/// One step of a run of allocations: a successful allocation for `f` gives
/// `f` the live slot `slot` and leaves every other field's live slot as it
/// was (what `SparseSlab::allocate` ensures on `Ok`); a failed one changes
/// nothing (what it ensures on `Err`, the slab never holding a reusable
/// range of the requested length when the pool has no room).
pub open spec fn alloc_run_step(before: SparseSlab, after: SparseSlab, f: u32, ok: bool, slot: SparseSlot) -> bool {
    if ok {
        &&& after.live_slot(f) == Some(slot)
        &&& forall|g: u32| g != f ==> #[trigger] after.live_slot(g) == before.live_slot(g)
    } else {
        after == before
    }
}

/// The live slot of field `f` after the first `m` steps of a run: the slot
/// given by the last successful allocation for `f`, if any.
pub open spec fn last_slot(fields: Seq<u32>, ok: Seq<bool>, slots: Seq<SparseSlot>, m: int, f: u32) -> Option<
    SparseSlot,
>
    decreases m,
{
    if m <= 0 {
        None
    } else if ok[m - 1] && fields[m - 1] == f {
        Some(slots[m - 1])
    } else {
        last_slot(fields, ok, slots, m - 1, f)
    }
}

/// Over a run of allocations from an empty slab: each field's live slot is
/// the one its last successful allocation gave, the fields with a live
/// allocation are exactly the distinct fields successfully allocated, and
/// (for a well-formed slab) the live count is their number.
pub proof fn lemma_allocation_run(
    slabs: Seq<SparseSlab>,
    fields: Seq<u32>,
    ok: Seq<bool>,
    slots: Seq<SparseSlot>,
)
    requires
        slabs.len() == fields.len() + 1,
        ok.len() == fields.len(),
        slots.len() == fields.len(),
        forall|f: u32| #[trigger] slabs[0].live_slot(f) is None,
        forall|k: int|
            0 <= k < fields.len() ==> #[trigger] alloc_run_step(
                slabs[k],
                slabs[k + 1],
                fields[k],
                ok[k],
                slots[k],
            ),
    ensures
        forall|f: u32|
            #[trigger] slabs.last().live_slot(f) == last_slot(
                fields,
                ok,
                slots,
                fields.len() as int,
                f,
            ),
        slabs.last().live_fields_spec() == Set::new(
            |f: u32| exists|k: int| 0 <= k < fields.len() && ok[k] && fields[k] == f,
        ),
        slabs.last().wf() ==> slabs.last().live_count_spec() == Set::new(
            |f: u32| exists|k: int| 0 <= k < fields.len() && ok[k] && fields[k] == f,
        ).len(),
    decreases fields.len(),
{
    let m = fields.len() as int;
    if m > 0 {
        let s2 = slabs.drop_last();
        let f2 = fields.drop_last();
        let o2 = ok.drop_last();
        let l2 = slots.drop_last();
        assert forall|k: int| 0 <= k < f2.len() implies #[trigger] alloc_run_step(
            s2[k],
            s2[k + 1],
            f2[k],
            o2[k],
            l2[k],
        ) by {
            assert(alloc_run_step(slabs[k], slabs[k + 1], fields[k], ok[k], slots[k]));
        }
        assert(s2[0] == slabs[0]);
        lemma_allocation_run(s2, f2, o2, l2);
        let k = m - 1;
        assert(alloc_run_step(slabs[k], slabs[k + 1], fields[k], ok[k], slots[k]));
        assert(s2.last() == slabs[k]);
        assert forall|f: u32|
            #[trigger] slabs.last().live_slot(f) == last_slot(fields, ok, slots, m, f) by {
            assert(last_slot(f2, o2, l2, k, f) == last_slot(fields, ok, slots, k, f)) by {
                lemma_last_slot_prefix(fields, ok, slots, k, f);
            }
        }
    }
    let live = Set::new(|f: u32| exists|k: int| 0 <= k < fields.len() && ok[k] && fields[k] == f);
    assert forall|f: u32| #[trigger] slabs.last().live_fields_spec().contains(f) <==> live.contains(f) by {
        lemma_last_slot_some(fields, ok, slots, m, f);
    }
    assert(slabs.last().live_fields_spec() =~= live);
    if slabs.last().wf() {
        slabs.last().lemma_live_count();
    }
}

/// `last_slot` over a prefix of the run reads the same steps.
proof fn lemma_last_slot_prefix(fields: Seq<u32>, ok: Seq<bool>, slots: Seq<SparseSlot>, m: int, f: u32)
    requires
        0 <= m < fields.len(),
        ok.len() == fields.len(),
        slots.len() == fields.len(),
    ensures
        last_slot(fields.drop_last(), ok.drop_last(), slots.drop_last(), m, f) == last_slot(
            fields,
            ok,
            slots,
            m,
            f,
        ),
    decreases m,
{
    if m > 0 {
        lemma_last_slot_prefix(fields, ok, slots, m - 1, f);
    }
}

/// A field has a last slot exactly when some step allocated it successfully.
proof fn lemma_last_slot_some(fields: Seq<u32>, ok: Seq<bool>, slots: Seq<SparseSlot>, m: int, f: u32)
    requires
        0 <= m <= fields.len(),
        ok.len() == fields.len(),
    ensures
        last_slot(fields, ok, slots, m, f) is Some <==> exists|k: int| 0 <= k < m && ok[k] && fields[k] == f,
    decreases m,
{
    if m > 0 {
        lemma_last_slot_some(fields, ok, slots, m - 1, f);
        if last_slot(fields, ok, slots, m - 1, f) is None && !(ok[m - 1] && fields[m - 1] == f) {
            assert forall|k: int| 0 <= k < m implies !(ok[k] && fields[k] == f) by {
                if k < m - 1 {
                }
            }
        }
    }
}

} // verus!
