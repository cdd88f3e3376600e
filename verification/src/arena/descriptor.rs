//! Field descriptor table: `FieldId` → (`FieldHandle`, metadata).
use vstd::prelude::*;

use indexmap::IndexMap;

use crate::arena::handle::{FieldHandle, FieldLocation};
use crate::error::ArenaError;
use crate::field::{FieldDef, FieldMutability};
use crate::id::FieldId;
use crate::index_map::{lemma_insert_keeps_unique, 
    index_map_clone, index_map_entries, index_map_get, index_map_insert, index_map_new, key_position,
    key_value, keys_unique, lemma_key_position_unique,
};

verus! {

/// Metadata about a field's type and allocation requirements.
#[derive(Debug)]
pub struct FieldMeta {
    /// Number of components per cell for this field.
    pub components: u32,
    /// Allocation strategy.
    pub mutability: FieldMutability,
    /// Total allocation size: `cell_count * components`.
    pub total_len: u32,
    /// Human-readable name (for diagnostics).
    pub name: String,
}

impl Clone for FieldMeta {
    fn clone(&self) -> (m: Self)
        ensures
            m == *self,
    {
        FieldMeta {
            components: self.components,
            mutability: self.mutability,
            total_len: self.total_len,
            name: self.name.clone(),
        }
    }
}

/// A single entry in the descriptor table.
#[derive(Debug)]
pub struct FieldEntry {
    /// Physical location of this field's data.
    pub handle: FieldHandle,
    /// Type metadata (immutable after construction).
    pub meta: FieldMeta,
}

impl Clone for FieldEntry {
    fn clone(&self) -> (e: Self)
        ensures
            e == *self,
    {
        FieldEntry { handle: self.handle, meta: self.meta.clone() }
    }
}

/// The table that registering `defs` in order builds: a later definition
/// of an id already present replaces its entry in place.
pub open spec fn table_of(defs: Seq<(FieldId, FieldDef)>, cell_count: u32) -> Seq<(u32, FieldEntry)>
    decreases defs.len(),
{
    if defs.len() == 0 {
        Seq::empty()
    } else {
        let prev = table_of(defs.drop_last(), cell_count);
        let (id, def) = defs.last();
        let entry = entry_of(def, cell_count);
        match table_position(prev, id.0) {
            Some(i) => prev.update(i, (id.0, entry)),
            None => prev.push((id.0, entry)),
        }
    }
}

/// The initial entry of a field: a generation-0 per-tick placeholder handle
/// of the field's full length.
pub open spec fn entry_of(def: FieldDef, cell_count: u32) -> FieldEntry {
    let total = (cell_count * def.field_type.components_spec()) as u32;
    FieldEntry {
        handle: FieldHandle {
            generation: 0,
            offset: 0,
            len: total,
            location: FieldLocation::PerTick { segment_index: 0 },
        },
        meta: FieldMeta {
            components: def.field_type.components_spec(),
            mutability: def.mutability,
            total_len: total,
            name: def.name,
        },
    }
}

/// Position of id `f` in a table, if present.
pub open spec fn table_position(t: Seq<(u32, FieldEntry)>, f: u32) -> Option<int> {
    if exists|i: int| 0 <= i < t.len() && t[i].0 == f {
        Some(choose|i: int| 0 <= i < t.len() && t[i].0 == f)
    } else {
        None
    }
}

/// Whether some definition's length `cell_count * components` overflows `u32`.
pub open spec fn any_len_overflows(defs: Seq<(FieldId, FieldDef)>, cell_count: u32) -> bool {
    exists|i: int|
        0 <= i < defs.len() && cell_count * (#[trigger] defs[i]).1.field_type.components_spec()
            > u32::MAX
}

/// Maps each registered `FieldId` to its current physical location and
/// metadata, iterating in registration order.
pub struct FieldDescriptor {
    ids: Vec<u32>,
    entries: Vec<FieldEntry>,
    index: IndexMap<u32, usize>,
}

impl FieldDescriptor {
    /// The table: field ids with their entries, in registration order.
    pub closed spec fn table(&self) -> Seq<(u32, FieldEntry)> {
        Seq::new(self.ids@.len(), |i: int| (self.ids@[i], self.entries@[i]))
    }

    /// The entry of field `f`, if registered.
    pub open spec fn lookup(&self, f: u32) -> Option<FieldEntry> {
        match table_position(self.table(), f) {
            Some(i) => Some(self.table()[i].1),
            None => None,
        }
    }

    /// Ids are unique; the index maps each id to its position.
    pub closed spec fn wf(&self) -> bool {
        &&& self.ids@.len() == self.entries@.len()
        &&& index_map_entries(self.index) == Seq::new(
            self.ids@.len(),
            |i: int| (self.ids@[i], i as usize),
        )
        &&& forall|i: int, j: int| 0 <= i < j < self.ids@.len() ==> self.ids@[i] != self.ids@[j]
    }

    proof fn lemma_position(&self, f: u32)
        requires
            self.wf(),
        ensures
            key_value(index_map_entries(self.index), f) == match table_position(self.table(), f) {
                Some(i) => Some(i as usize),
                None => None,
            },
            match table_position(self.table(), f) {
                Some(i) => 0 <= i < self.ids@.len() && self.ids@[i] == f,
                None => forall|i: int| 0 <= i < self.ids@.len() ==> self.ids@[i] != f,
            },
    {
        let e = index_map_entries(self.index);
        let t = self.table();
        if let Some(i) = table_position(t, f) {
            assert(t[i].0 == f);
            assert(e[i].0 == f);
            lemma_key_position_unique(e, f, i);
            lemma_table_position_unique(t, f, i);
        } else {
            assert forall|i: int| 0 <= i < self.ids@.len() implies self.ids@[i] != f by {
                assert(t[i].0 == self.ids@[i]);
            }
            assert(key_position(e, f) is None) by {
                if exists|i: int| 0 <= i < e.len() && e[i].0 == f {
                    let i = choose|i: int| 0 <= i < e.len() && e[i].0 == f;
                    assert(t[i].0 == f);
                }
            }
        }
    }

    /// The descriptor's lookup is the lookup in its table.
    pub proof fn lemma_lookup_is_table_lookup(&self, f: u32)
        ensures
            self.lookup(f) == match table_position(self.table(), f) {
                Some(i) => Some(self.table()[i].1),
                None => None,
            },
    {
    }

    /// An empty descriptor.
    pub fn new() -> (d: Self)
        ensures
            d.wf(),
            d.table() == Seq::<(u32, FieldEntry)>::empty(),
    {
        let d = FieldDescriptor { ids: Vec::new(), entries: Vec::new(), index: index_map_new() };
        assert(index_map_entries(d.index) =~= Seq::new(0, |i: int| (d.ids@[i], i as usize)));
        assert(d.table() =~= Seq::<(u32, FieldEntry)>::empty());
        d
    }

    /// Insert or replace the entry of `f`: an existing id keeps its place.
    fn insert(&mut self, f: u32, entry: FieldEntry)
        requires
            old(self).wf(),
        ensures
            final(self).wf(),
            final(self).table() == match table_position(old(self).table(), f) {
                Some(i) => old(self).table().update(i, (f, entry)),
                None => old(self).table().push((f, entry)),
            },
    {
        let _n = self.ids.len();
        proof {
            self.lemma_position(f);
        }
        match index_map_get(&self.index, f) {
            Some(pos) => {
                self.entries.set(pos, entry);
                assert(self.table() =~= old(self).table().update(pos as int, (f, entry)));
            },
            None => {
                let pos = self.ids.len();
                self.ids.push(f);
                self.entries.push(entry);
                let ghost pre = index_map_entries(self.index);
                proof {
                    lemma_insert_keeps_unique(index_map_entries(self.index), f, pos);
                }
                index_map_insert(&mut self.index, f, pos);
                assert(index_map_entries(self.index) =~= Seq::new(
                    self.ids@.len(),
                    |i: int| (self.ids@[i], i as usize),
                ));
                assert(self.table() =~= old(self).table().push((f, entry)));
            },
        }
    }

    /// Build a descriptor from field definitions and a cell count.
    ///
    /// Each field gets a generation-0 placeholder handle of length
    /// `cell_count * components`. Fails with `InvalidConfig` when that
    /// length overflows `u32` for some field.
    pub fn from_field_defs(field_defs: &[(FieldId, FieldDef)], cell_count: u32) -> (r: Result<
        Self,
        ArenaError,
    >)
        ensures
            r is Ok <==> !any_len_overflows(field_defs@, cell_count),
            r is Ok ==> r->Ok_0.wf() && r->Ok_0.table() == table_of(field_defs@, cell_count),
            r is Err ==> r->Err_0 is InvalidConfig,
    {
        let mut d = Self::new();
        let n = field_defs.len();
        let mut i: usize = 0;
        while i < n
            invariant
                n == field_defs@.len(),
                i <= n,
                d.wf(),
                d.table() == table_of(field_defs@.subrange(0, i as int), cell_count),
                !any_len_overflows(field_defs@.subrange(0, i as int), cell_count),
            decreases n - i,
        {
            let id = field_defs[i].0;
            let components = field_defs[i].1.field_type.components();
            let total_len = match cell_count.checked_mul(components) {
                Some(t) => t,
                None => {
                    proof {
                        assert(field_defs@[i as int].1.field_type.components_spec() == components);
                    }
                    return Err(
                        ArenaError::InvalidConfig {
                            reason: overflow_reason(cell_count, components, &field_defs[i].1.name),
                        },
                    );
                },
            };
            let meta = FieldMeta {
                components,
                mutability: field_defs[i].1.mutability,
                total_len,
                name: field_defs[i].1.name.clone(),
            };
            let handle = FieldHandle::new(
                0,
                0,
                total_len,
                FieldLocation::PerTick { segment_index: 0 },
            );
            let entry = FieldEntry { handle, meta };
            proof {
                let s = field_defs@.subrange(0, i + 1);
                assert(s.drop_last() =~= field_defs@.subrange(0, i as int));
                assert(s.last() == field_defs@[i as int]);
                assert(entry == entry_of(field_defs@[i as int].1, cell_count));
            }
            d.insert(id.0, entry);
            i = i + 1;
            proof {
                let s = field_defs@.subrange(0, i as int);
                assert forall|k: int| 0 <= k < s.len() implies cell_count * (#[trigger] s[k]).1.field_type.components_spec() <= u32::MAX by {
                    if k < i - 1 {
                        assert(s[k] == field_defs@.subrange(0, i - 1)[k]);
                    }
                }
            }
        }
        assert(field_defs@.subrange(0, n as int) =~= field_defs@);
        Ok(d)
    }

    /// Look up a field's entry.
    pub fn get(&self, field: FieldId) -> (r: Option<&FieldEntry>)
        requires
            self.wf(),
        ensures
            match r {
                Some(e) => self.lookup(field.0) == Some(*e),
                None => self.lookup(field.0) is None,
            },
    {
        let _n = self.ids.len();
        proof {
            self.lemma_position(field.0);
        }
        match index_map_get(&self.index, field.0) {
            Some(pos) => Some(&self.entries[pos]),
            None => None,
        }
    }

    /// Replace the handle of a field (after allocation or a ping-pong swap);
    /// an unregistered field is ignored.
    pub fn update_handle(&mut self, field: FieldId, handle: FieldHandle)
        requires
            old(self).wf(),
        ensures
            final(self).wf(),
            final(self).table() == match table_position(old(self).table(), field.0) {
                Some(i) => old(self).table().update(
                    i,
                    (field.0, FieldEntry { handle, meta: old(self).table()[i].1.meta }),
                ),
                None => old(self).table(),
            },
    {
        let _n = self.ids.len();
        proof {
            self.lemma_position(field.0);
        }
        match index_map_get(&self.index, field.0) {
            Some(pos) => {
                let meta = self.entries[pos].meta.clone();
                self.entries.set(pos, FieldEntry { handle, meta });
                assert(self.table() =~= old(self).table().update(
                    pos as int,
                    (field.0, FieldEntry { handle, meta: old(self).table()[pos as int].1.meta }),
                ));
            },
            None => {},
        }
    }

    /// Replace the handle of the entry at position `i`.
    pub fn set_handle_at(&mut self, i: usize, handle: FieldHandle)
        requires
            old(self).wf(),
            i < old(self).table().len(),
        ensures
            final(self).wf(),
            final(self).table() == old(self).table().update(
                i as int,
                (
                    old(self).table()[i as int].0,
                    FieldEntry { handle, meta: old(self).table()[i as int].1.meta },
                ),
            ),
    {
        let meta = self.entries[i].meta.clone();
        self.entries.set(i, FieldEntry { handle, meta });
        assert(self.table() =~= old(self).table().update(
            i as int,
            (
                old(self).table()[i as int].0,
                FieldEntry { handle, meta: old(self).table()[i as int].1.meta },
            ),
        ));
    }

    /// Ids in the table are distinct.
    pub proof fn lemma_ids_distinct(&self)
        requires
            self.wf(),
        ensures
            forall|a: int, b: int|
                0 <= a < b < self.table().len() ==> self.table()[a].0 != self.table()[b].0,
    {
    }

    /// The id and entry at position `i` in registration order.
    pub fn entry_at(&self, i: usize) -> (r: (FieldId, &FieldEntry))
        requires
            self.wf(),
            i < self.table().len(),
        ensures
            r.0.0 == self.table()[i as int].0,
            *r.1 == self.table()[i as int].1,
    {
        (FieldId(self.ids[i]), &self.entries[i])
    }

    /// Number of registered fields.
    pub fn len(&self) -> (n: usize)
        requires
            self.wf(),
        ensures
            n == self.table().len(),
    {
        self.ids.len()
    }

    /// Whether there are no registered fields.
    pub fn is_empty(&self) -> (b: bool)
        requires
            self.wf(),
        ensures
            b == (self.table().len() == 0),
    {
        self.ids.len() == 0
    }

    /// The ids (and total lengths) of the fields of one mutability class, in
    /// registration order.
    pub fn fields_by_mutability(&self, mutability: FieldMutability) -> (v: Vec<(FieldId, u32)>)
        requires
            self.wf(),
        ensures
            v@ == filter_mutability(self.table(), mutability),
    {
        let n = self.ids.len();
        let mut v: Vec<(FieldId, u32)> = Vec::new();
        let mut i: usize = 0;
        while i < n
            invariant
                self.wf(),
                n == self.table().len(),
                i <= n,
                v@ == filter_mutability(self.table().subrange(0, i as int), mutability),
            decreases n - i,
        {
            proof {
                let s = self.table().subrange(0, i + 1);
                assert(s.drop_last() =~= self.table().subrange(0, i as int));
            }
            if self.entries[i].meta.mutability == mutability {
                v.push((FieldId(self.ids[i]), self.entries[i].meta.total_len));
            }
            i = i + 1;
        }
        assert(self.table().subrange(0, n as int) =~= self.table());
        v
    }
}

impl Clone for FieldDescriptor {
    fn clone(&self) -> (d: Self)
        ensures
            d.table() == self.table(),
            self.wf() ==> d.wf(),
    {
        let ids = self.ids.clone();
        let n = self.entries.len();
        let mut entries: Vec<FieldEntry> = Vec::new();
        let mut i: usize = 0;
        while i < n
            invariant
                n == self.entries@.len(),
                i <= n,
                entries@ == self.entries@.subrange(0, i as int),
            decreases n - i,
        {
            entries.push(self.entries[i].clone());
            i = i + 1;
            assert(entries@ =~= self.entries@.subrange(0, i as int));
        }
        assert(ids@ =~= self.ids@);
        assert(entries@ =~= self.entries@);
        FieldDescriptor { ids, entries, index: index_map_clone(&self.index) }
    }
}

/// Every entry of a freshly built table is a placeholder handle of the
/// field's full length, per-tick located, generation 0.
pub proof fn lemma_table_of_entries(defs: Seq<(FieldId, FieldDef)>, cell_count: u32, j: int)
    requires
        0 <= j < table_of(defs, cell_count).len(),
    ensures
        table_of(defs, cell_count)[j].1.handle.len == table_of(defs, cell_count)[j].1.meta.total_len,
        table_of(defs, cell_count)[j].1.handle.generation == 0,
        table_of(defs, cell_count)[j].1.handle.location is PerTick,
    decreases defs.len(),
{
    if defs.len() > 0 {
        let prev = table_of(defs.drop_last(), cell_count);
        if j < prev.len() {
            lemma_table_of_entries(defs.drop_last(), cell_count, j);
        }
    }
}

/// The (id, total length) pairs of the entries of one mutability class.
pub open spec fn filter_mutability(t: Seq<(u32, FieldEntry)>, m: FieldMutability) -> Seq<(FieldId, u32)>
    decreases t.len(),
{
    if t.len() == 0 {
        Seq::empty()
    } else {
        let prev = filter_mutability(t.drop_last(), m);
        if t.last().1.meta.mutability == m {
            prev.push((FieldId(t.last().0), t.last().1.meta.total_len))
        } else {
            prev
        }
    }
}

/// With unique ids, the position found for `f` is the only one holding it.
pub proof fn lemma_table_position_unique(t: Seq<(u32, FieldEntry)>, f: u32, i: int)
    requires
        forall|a: int, b: int| 0 <= a < b < t.len() ==> t[a].0 != t[b].0,
        0 <= i < t.len(),
        t[i].0 == f,
    ensures
        table_position(t, f) == Some(i),
{
    let j = choose|j: int| 0 <= j < t.len() && t[j].0 == f;
    if j < i {
        assert(t[j].0 != t[i].0);
    } else if j > i {
        assert(t[i].0 != t[j].0);
    }
}

/// The reason given when a field's length overflows `u32`.
#[verifier::external_body]
fn overflow_reason(cell_count: u32, components: u32, name: &String) -> String {
    format!("cell_count ({cell_count}) * components ({components}) overflows u32 for field '{name}'")
}

} // verus!
