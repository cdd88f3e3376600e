//! Static generation-0 arena for immutable fields.
use vstd::prelude::*;

use std::sync::Arc;

use indexmap::IndexMap;

use crate::arena::config::{bytes_of, elements_to_bytes};
use crate::id::FieldId;
use crate::index_map::{lemma_insert_keeps_unique, 
    index_map_contains_key, index_map_entries, index_map_get, index_map_insert, index_map_len,
    index_map_new, key_position, key_value, keys_unique, lemma_key_position_unique,
};

verus! {

/// Sum of the first `k` lengths of `fields`.
pub open spec fn prefix_len(fields: Seq<(FieldId, u32)>, k: int) -> nat
    decreases k,
{
    if k <= 0 {
        0
    } else {
        prefix_len(fields, k - 1) + fields[k - 1].1 as nat
    }
}

proof fn lemma_prefix_len_mono(fields: Seq<(FieldId, u32)>, a: int, b: int)
    requires
        0 <= a <= b <= fields.len(),
    ensures
        prefix_len(fields, a) <= prefix_len(fields, b),
    decreases b - a,
{
    if a < b {
        lemma_prefix_len_mono(fields, a, b - 1);
    }
}

/// Sum of the first `k` lengths of a layout.
pub open spec fn lens_before(l: Seq<(u32, usize, usize)>, k: int) -> nat
    decreases k,
{
    if k <= 0 {
        0
    } else {
        lens_before(l, k - 1) + l[k - 1].2 as nat
    }
}

proof fn lemma_lens_before_mono(l: Seq<(u32, usize, usize)>, a: int, b: int)
    requires
        0 <= a <= b <= l.len(),
    ensures
        lens_before(l, a) <= lens_before(l, b),
    decreases b - a,
{
    if a < b {
        lemma_lens_before_mono(l, a, b - 1);
    }
}

proof fn lemma_lens_match(l: Seq<(u32, usize, usize)>, f: Seq<(FieldId, u32)>, k: int)
    requires
        0 <= k <= l.len(),
        l.len() <= f.len(),
        forall|i: int| 0 <= i < l.len() ==> (#[trigger] l[i]).2 == f[i].1 as usize,
    ensures
        lens_before(l, k) == prefix_len(f, k),
    decreases k,
{
    if k > 0 {
        lemma_lens_match(l, f, k - 1);
    }
}

/// Offset recorded for layout entry `i`.
pub open spec fn offset_at(l: Seq<(u32, usize, usize)>, i: int) -> usize {
    l[i].1
}

/// Ids occur at most once.
pub open spec fn ids_distinct(fields: Seq<(FieldId, u32)>) -> bool {
    forall|i: int, j: int| 0 <= i < j < fields.len() ==> fields[i].0 != fields[j].0
}

/// Arena for static (generation-0) field data: all static fields packed
/// into one buffer, in the order given, with an offset table.
pub struct StaticArena<T> {
    data: Vec<T>,
    index: IndexMap<u32, usize>,
    layout: Vec<(u32, usize, usize)>,
}

/// Shared handle for cross-environment static data sharing.
pub type SharedStaticArena<T> = Arc<StaticArena<T>>;

impl<T: Copy> StaticArena<T> {
    /// Each field's id, offset and length, in layout order.
    pub closed spec fn layout_spec(&self) -> Seq<(u32, usize, usize)> {
        self.layout@
    }

    /// The packed storage.
    pub closed spec fn contents(&self) -> Seq<T> {
        self.data@
    }

    /// Offset and length of field `f`, if stored.
    pub open spec fn location_of(&self, f: u32) -> Option<(usize, usize)> {
        match self.position_of(f) {
            Some(i) => Some((self.layout_spec()[i].1, self.layout_spec()[i].2)),
            None => None,
        }
    }

    /// The data of field `f`, if stored.
    pub open spec fn field_data(&self, f: u32) -> Option<Seq<T>> {
        match self.location_of(f) {
            Some((off, len)) => Some(self.contents().subrange(off as int, off + len)),
            None => None,
        }
    }

    /// Fields are packed back to back from offset 0 with distinct ids, the
    /// storage ends with the last field, and the index maps each id to its
    /// layout position.
    pub closed spec fn wf(&self) -> bool {
        let l = self.layout@;
        &&& index_map_entries(self.index) == Seq::new(l.len(), |i: int| (l[i].0, i as usize))
        &&& forall|i: int, j: int| 0 <= i < j < l.len() ==> l[i].0 != l[j].0
        &&& forall|i: int| 0 <= i < l.len() ==> #[trigger] offset_at(l, i) == lens_before(l, i)
        &&& self.data@.len() == lens_before(l, l.len() as int)
    }

    proof fn lemma_layout(&self)
        requires
            self.wf(),
        ensures
            forall|i: int|
                0 <= i < self.layout@.len() ==> (#[trigger] self.layout@[i]).1 + self.layout@[i].2
                    <= self.data@.len(),
    {
        let l = self.layout@;
        assert forall|i: int| 0 <= i < l.len() implies (#[trigger] l[i]).1 + l[i].2 <= self.data@.len() by {
            assert(offset_at(l, i) == lens_before(l, i));
            lemma_lens_before_mono(l, i + 1, l.len() as int);
        }
    }

    /// Layout position of field `f`, if stored.
    pub closed spec fn position_of(&self, f: u32) -> Option<int> {
        let l = self.layout@;
        if exists|i: int| 0 <= i < l.len() && l[i].0 == f {
            Some(choose|i: int| 0 <= i < l.len() && l[i].0 == f)
        } else {
            None
        }
    }

    /// The field at layout position `k` is found at the offset and with the
    /// length recorded there, and its data is that range of the storage.
    pub proof fn lemma_location_at(&self, k: int)
        requires
            self.wf(),
            0 <= k < self.layout_spec().len(),
        ensures
            self.location_of(self.layout_spec()[k].0) == Some(
                (self.layout_spec()[k].1, self.layout_spec()[k].2),
            ),
            self.field_data(self.layout_spec()[k].0) == Some(
                self.contents().subrange(
                    self.layout_spec()[k].1 as int,
                    self.layout_spec()[k].1 + self.layout_spec()[k].2,
                ),
            ),
    {
        let l = self.layout@;
        let f = l[k].0;
        let i = choose|i: int| 0 <= i < l.len() && l[i].0 == f;
        if i != k {
            if i < k {
                assert(l[i].0 != l[k].0);
            } else {
                assert(l[k].0 != l[i].0);
            }
        }
    }

    /// A field that no layout entry names is not stored.
    pub proof fn lemma_location_absent(&self, f: u32)
        requires
            forall|i: int| 0 <= i < self.layout_spec().len() ==> #[trigger] self.layout_spec()[i].0 != f,
        ensures
            self.location_of(f) is None,
            self.field_data(f) is None,
    {
    }

    proof fn lemma_position(&self, f: u32)
        requires
            self.wf(),
        ensures
            match self.position_of(f) {
                Some(i) => {
                    &&& 0 <= i < self.layout@.len()
                    &&& self.layout@[i].0 == f
                    &&& key_value(index_map_entries(self.index), f) == Some(i as usize)
                    &&& self.location_of(f) == Some((self.layout@[i].1, self.layout@[i].2))
                },
                None => {
                    &&& key_value(index_map_entries(self.index), f) is None
                    &&& self.location_of(f) is None
                },
            },
    {
        let l = self.layout@;
        let e = index_map_entries(self.index);
        assert(e.len() == l.len());
        if exists|i: int| 0 <= i < l.len() && l[i].0 == f {
            let i = choose|i: int| 0 <= i < l.len() && l[i].0 == f;
            assert(e[i] == (l[i].0, i as usize));
            assert(keys_unique(e)) by {
                assert forall|a: int, b: int| 0 <= a < b < e.len() implies e[a].0 != e[b].0 by {
                    assert(e[a].0 == l[a].0 && e[b].0 == l[b].0);
                }
            }
            lemma_key_position_unique(e, f, i);
        } else {
            assert(key_position(e, f) is None) by {
                if exists|i: int| 0 <= i < e.len() && e[i].0 == f {
                    let i = choose|i: int| 0 <= i < e.len() && e[i].0 == f;
                    assert(e[i] == (l[i].0, i as usize));
                }
            }
        }
    }

    /// Create a static arena with space for the given fields, laid out in
    /// order, every element holding `zero`.
    pub fn new(static_fields: &[(FieldId, u32)], zero: T) -> (a: Self)
        requires
            ids_distinct(static_fields@),
            prefix_len(static_fields@, static_fields@.len() as int) <= usize::MAX,
        ensures
            a.wf(),
            a.layout_spec() == Seq::new(
                static_fields@.len(),
                |i: int|
                    (
                        static_fields@[i].0.0,
                        prefix_len(static_fields@, i) as usize,
                        static_fields@[i].1 as usize,
                    ),
            ),
            a.contents() == Seq::new(
                prefix_len(static_fields@, static_fields@.len() as int),
                |i: int| zero,
            ),
    {
        let n = static_fields.len();
        let mut data: Vec<T> = Vec::new();
        let mut index = index_map_new();
        let mut layout: Vec<(u32, usize, usize)> = Vec::new();
        let mut i: usize = 0;
        while i < n
            invariant
                n == static_fields@.len(),
                i <= n,
                ids_distinct(static_fields@),
                prefix_len(static_fields@, n as int) <= usize::MAX,
                data@ == Seq::new(prefix_len(static_fields@, i as int), |k: int| zero),
                layout@ == Seq::new(
                    i as nat,
                    |k: int|
                        (
                            static_fields@[k].0.0,
                            prefix_len(static_fields@, k) as usize,
                            static_fields@[k].1 as usize,
                        ),
                ),
                index_map_entries(index) == Seq::new(i as nat, |k: int| (layout@[k].0, k as usize)),
            decreases n - i,
        {
            let (id, len) = static_fields[i];
            let offset = data.len();
            proof {
                lemma_prefix_len_mono(static_fields@, i + 1, n as int);
            }
            let mut k: u32 = 0;
            while k < len
                invariant
                    k <= len,
                    data@ == Seq::new(prefix_len(static_fields@, i as int) + k as nat, |j: int| zero),
                decreases len - k,
            {
                data.push(zero);
                k = k + 1;
                assert(data@ =~= Seq::new(prefix_len(static_fields@, i as int) + k as nat, |j: int| zero));
            }
            let ghost pre = index_map_entries(index);
            proof {
                assert(key_position(pre, id.0) is None) by {
                    if exists|j: int| 0 <= j < pre.len() && pre[j].0 == id.0 {
                        let j = choose|j: int| 0 <= j < pre.len() && pre[j].0 == id.0;
                        assert(static_fields@[j].0 != static_fields@[i as int].0);
                    }
                }
            }
            proof {
                lemma_insert_keeps_unique(index_map_entries(index), id.0, i);
            }
            index_map_insert(&mut index, id.0, i);
            layout.push((id.0, offset, len as usize));
            i = i + 1;
            assert(layout@ =~= Seq::new(
                i as nat,
                |k: int|
                    (
                        static_fields@[k].0.0,
                        prefix_len(static_fields@, k) as usize,
                        static_fields@[k].1 as usize,
                    ),
            ));
            assert(index_map_entries(index) =~= Seq::new(
                i as nat,
                |k: int| (layout@[k].0, k as usize),
            ));
        }
        let a = StaticArena { data, index, layout };
        proof {
            let l = a.layout@;
            let sf = static_fields@;
            lemma_lens_match(l, sf, n as int);
            assert forall|x: int| 0 <= x < l.len() implies #[trigger] offset_at(l, x) == lens_before(l, x) by {
                lemma_lens_match(l, sf, x);
                lemma_prefix_len_mono(sf, x, n as int);
            }
            assert forall|x: int, y: int| 0 <= x < y < l.len() implies l[x].0 != l[y].0 by {
                assert(static_fields@[x].0 != static_fields@[y].0);
            }
        }
        a
    }

    /// Read a static field's data.
    pub fn read_field(&self, field: FieldId) -> (r: Option<&[T]>)
        requires
            self.wf(),
        ensures
            match r {
                Some(s) => self.field_data(field.0) == Some(s@),
                None => self.field_data(field.0) is None,
            },
    {
        let _n = self.layout.len();
        proof {
            self.lemma_position(field.0);
            self.lemma_layout();
        }
        match index_map_get(&self.index, field.0) {
            Some(pos) => {
                let (_, off, len) = self.layout[pos];
                let _d = self.data.len();
                Some(&self.data.as_slice()[off..off + len])
            },
            None => None,
        }
    }

    /// Write `values` into a static field starting at element `start`.
    ///
    /// Returns `false` (and changes nothing) if the field is not registered
    /// or the values do not fit in it. Meant for world construction, before
    /// the arena is shared.
    pub fn write_field(&mut self, field: FieldId, start: usize, values: &[T]) -> (ok: bool)
        requires
            old(self).wf(),
        ensures
            final(self).wf(),
            final(self).layout_spec() == old(self).layout_spec(),
            ok == match old(self).location_of(field.0) {
                Some((off, len)) => start + values@.len() <= len,
                None => false,
            },
            ok ==> {
                let (off, len) = old(self).location_of(field.0)->Some_0;
                final(self).contents() == old(self).contents().subrange(0, off + start)
                    + values@ + old(self).contents().subrange(
                    off + start + values@.len(),
                    old(self).contents().len() as int,
                )
            },
            !ok ==> final(self).contents() == old(self).contents(),
    {
        let _n = self.layout.len();
        proof {
            self.lemma_position(field.0);
            self.lemma_layout();
        }
        let pos = match index_map_get(&self.index, field.0) {
            Some(p) => p,
            None => return false,
        };
        let (_, off, len) = self.layout[pos];
        if start > len || values.len() > len - start {
            return false;
        }
        let total = self.data.len();
        let n = values.len();
        let base = off + start;
        let mut i: usize = 0;
        while i < n
            invariant
                n == values@.len(),
                base + n <= total,
                self.data@.len() == total,
                total == old(self).data@.len(),
                self.layout == old(self).layout,
                self.index == old(self).index,
                i <= n,
                forall|k: int|
                    0 <= k < total ==> #[trigger] self.data@[k] == if base <= k < base + i {
                        values@[k - base]
                    } else {
                        old(self).data@[k]
                    },
            decreases n - i,
        {
            self.data[base + i] = values[i];
            i = i + 1;
        }
        assert(self.data@ =~= old(self).data@.subrange(0, base as int) + values@
            + old(self).data@.subrange(base + n, total as int));
        true
    }

    /// Whether a field is stored in this static arena.
    pub fn contains(&self, field: FieldId) -> (b: bool)
        requires
            self.wf(),
        ensures
            b == (self.location_of(field.0) is Some),
    {
        proof {
            self.lemma_position(field.0);
        }
        index_map_contains_key(&self.index, field.0)
    }

    /// Offset and length of a field within the packed storage, as `u32`s
    /// (truncating).
    pub fn field_location(&self, field: FieldId) -> (r: Option<(u32, u32)>)
        requires
            self.wf(),
        ensures
            match self.location_of(field.0) {
                Some((off, len)) => r == Some((off as u32, len as u32)),
                None => r is None,
            },
    {
        let _n = self.layout.len();
        proof {
            self.lemma_position(field.0);
        }
        match index_map_get(&self.index, field.0) {
            Some(pos) => {
                let (_, off, len) = self.layout[pos];
                Some((off as u32, len as u32))
            },
            None => None,
        }
    }

    /// Total memory usage in bytes (saturating).
    pub fn memory_bytes(&self) -> (n: usize)
        ensures
            n == bytes_of::<T>(self.contents().len()),
    {
        elements_to_bytes::<T>(self.data.len())
    }

    /// Number of static fields.
    pub fn field_count(&self) -> (n: usize)
        requires
            self.wf(),
        ensures
            n == self.layout_spec().len(),
    {
        index_map_len(&self.index)
    }

    /// Wrap this arena in an `Arc` for sharing.
    pub fn into_shared(self) -> (s: SharedStaticArena<T>)
        ensures
            *s == self,
    {
        Arc::new(self)
    }
}

} // verus!
