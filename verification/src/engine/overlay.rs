//! What a propagator reads during a tick: fields of the base generation,
//! copied once per tick, and fields staged by earlier propagators of the
//! same tick, each field routed to one of the two.
use vstd::prelude::*;

use indexmap::IndexMap;

use crate::arena::pingpong::Snapshot;
use crate::id::FieldId;
use crate::index_map::{
    index_map_contains_key, index_map_entries, index_map_get, index_map_insert, index_map_len,
    index_map_new, key_position, key_value, keys_unique, lemma_insert_keeps_unique,
    lemma_key_position_unique,
};

verus! {

/// Where a propagator reads a field from.
#[derive(Clone, Copy, Debug, PartialEq, Eq, Structural)]
pub enum ReadSource {
    /// The generation published before this tick.
    BaseGen,
    /// What an earlier propagator of this tick wrote.
    Staged {
        /// The propagator that wrote it.
        writer_index: usize,
    },
}

/// The ids of `s`, each kept at its first occurrence, in order.
pub open spec fn first_seen(s: Seq<FieldId>) -> Seq<FieldId>
    decreases s.len(),
{
    if s.len() == 0 {
        s
    } else {
        let rest = first_seen(s.drop_last());
        if rest.contains(s.last()) {
            rest
        } else {
            rest.push(s.last())
        }
    }
}

proof fn lemma_first_seen_contains(s: Seq<FieldId>, f: FieldId)
    ensures
        first_seen(s).contains(f) == s.contains(f),
    decreases s.len(),
{
    if s.len() > 0 {
        let d = s.drop_last();
        lemma_first_seen_contains(d, f);
        assert(d.push(s.last()) =~= s);
        vstd::seq_lib::lemma_seq_contains_after_push(d, s.last(), f);
        vstd::seq_lib::lemma_seq_contains_after_push(first_seen(d), s.last(), f);
    }
}

/// The fields a tick copies from the base generation before running the
/// propagators: those routed to the base generation, those read from the
/// previous generation, and those seeded incrementally, each once, in
/// first-seen order.
pub struct BaseFieldSet {
    field_ids: Vec<FieldId>,
}

impl BaseFieldSet {
    /// The fields, in first-seen order.
    pub closed spec fn ids(&self) -> Seq<FieldId> {
        self.field_ids@
    }

    /// The set of `base_gen_reads`, then `reads_previous`, then
    /// `incremental`, each field once, in first-seen order.
    pub fn from_reads(
        base_gen_reads: &[FieldId],
        reads_previous: &[FieldId],
        incremental: &[FieldId],
    ) -> (s: Self)
        ensures
            s.ids() == first_seen(base_gen_reads@ + reads_previous@ + incremental@),
    {
        let ghost all = base_gen_reads@ + reads_previous@ + incremental@;
        let mut seen: IndexMap<u32, usize> = index_map_new();
        let mut out: Vec<FieldId> = Vec::new();
        let mut k: usize = 0;
        while k < 3
            invariant
                k <= 3,
                keys_unique(index_map_entries(seen)),
                index_map_entries(seen).len() == out@.len(),
                forall|i: int|
                    0 <= i < out@.len() ==> #[trigger] index_map_entries(seen)[i] == (
                        out@[i].0,
                        i as usize,
                    ),
                out@ == first_seen(all.subrange(
                    0,
                    if k == 0 {
                        0
                    } else if k == 1 {
                        base_gen_reads@.len() as int
                    } else if k == 2 {
                        (base_gen_reads@.len() + reads_previous@.len()) as int
                    } else {
                        all.len() as int
                    },
                )),
                all == base_gen_reads@ + reads_previous@ + incremental@,
            decreases 3 - k,
        {
            let part: &[FieldId] = if k == 0 {
                base_gen_reads
            } else if k == 1 {
                reads_previous
            } else {
                incremental
            };
            let ghost base: int = if k == 0 {
                0
            } else if k == 1 {
                base_gen_reads@.len() as int
            } else {
                (base_gen_reads@.len() + reads_previous@.len()) as int
            };
            proof {
                assert(base + part@.len() <= all.len());
                assert forall|j: int| 0 <= j < part@.len() implies #[trigger] part@[j] == all[base + j] by {
                    if k == 0 {
                        assert(all[j] == base_gen_reads@[j]);
                    } else if k == 1 {
                        assert(all[base + j] == reads_previous@[j]);
                    } else {
                        assert(all[base + j] == incremental@[j]);
                    }
                }
            }
            let mut j: usize = 0;
            while j < part.len()
                invariant
                    j <= part@.len(),
                    0 <= base,
                    base + part@.len() <= all.len(),
                    forall|t: int| 0 <= t < part@.len() ==> #[trigger] part@[t] == all[base + t],
                    keys_unique(index_map_entries(seen)),
                    index_map_entries(seen).len() == out@.len(),
                    forall|i: int|
                        0 <= i < out@.len() ==> #[trigger] index_map_entries(seen)[i] == (
                            out@[i].0,
                            i as usize,
                        ),
                    out@ == first_seen(all.subrange(0, base + j)),
                decreases part@.len() - j,
            {
                let f = part[j];
                let ghost e = index_map_entries(seen);
                proof {
                    assert(all.subrange(0, base + j + 1).drop_last() =~= all.subrange(0, base + j));
                    assert(all.subrange(0, base + j + 1).last() == f);
                    lemma_first_seen_contains(all.subrange(0, base + j), f);
                }
                if !index_map_contains_key(&seen, f.0) {
                    let n = index_map_len(&seen);
                    proof {
                        assert(!out@.contains(f)) by {
                            if out@.contains(f) {
                                let i = choose|i: int| 0 <= i < out@.len() && out@[i] == f;
                                assert(e[i].0 == f.0);
                            }
                        }
                        lemma_insert_keeps_unique(e, f.0, n);
                    }
                    index_map_insert(&mut seen, f.0, n);
                    out.push(f);
                    proof {
                        assert(index_map_entries(seen) == e.push((f.0, n)));
                    }
                } else {
                    proof {
                        let i = key_position(e, f.0)->Some_0;
                        assert(e[i].0 == f.0);
                        assert(out@[i].0 == f.0);
                        assert(out@[i] == f);
                        assert(out@.contains(f));
                    }
                }
                j = j + 1;
            }
            proof {
                assert(base + part@.len() == if k == 0 {
                    base_gen_reads@.len() as int
                } else if k == 1 {
                    (base_gen_reads@.len() + reads_previous@.len()) as int
                } else {
                    all.len() as int
                });
            }
            k = k + 1;
        }
        proof {
            assert(all.subrange(0, all.len() as int) =~= all);
        }
        BaseFieldSet { field_ids: out }
    }

    /// The fields, in first-seen order.
    pub fn field_ids(&self) -> (ids: &[FieldId])
        ensures
            ids@ == self.ids(),
    {
        self.field_ids.as_slice()
    }
}

/// A per-tick copy of field data, keyed by field. Keys, once added, stay;
/// clearing empties their data.
pub struct FieldCache<T> {
    index: IndexMap<u32, usize>,
    buffers: Vec<Option<Vec<T>>>,
}

impl<T> FieldCache<T> {
    /// The cached data of field `f`, if any.
    pub closed spec fn cached(&self, f: u32) -> Option<Seq<T>> {
        match key_value(index_map_entries(self.index), f) {
            Some(i) => match self.buffers@[i as int] {
                Some(b) => Some(b@),
                None => None,
            },
            None => None,
        }
    }

    /// Entry `i` of the index maps its key to buffer `i`.
    pub closed spec fn wf(&self) -> bool {
        let e = index_map_entries(self.index);
        &&& keys_unique(e)
        &&& e.len() == self.buffers@.len()
        &&& forall|i: int| 0 <= i < e.len() ==> (#[trigger] e[i]).1 == i
    }

    /// An empty cache.
    pub fn new() -> (c: Self)
        ensures
            c.wf(),
            forall|f: u32| #[trigger] c.cached(f) is None,
    {
        FieldCache { index: index_map_new(), buffers: Vec::new() }
    }

    /// Drop every field's data, keeping the keys.
    pub fn clear(&mut self)
        requires
            old(self).wf(),
        ensures
            final(self).wf(),
            forall|f: u32| #[trigger] final(self).cached(f) is None,
    {
        let ghost e = index_map_entries(self.index);
        let mut i: usize = 0;
        while i < self.buffers.len()
            invariant
                i <= self.buffers@.len(),
                self.index == old(self).index,
                self.buffers@.len() == old(self).buffers@.len(),
                e == index_map_entries(self.index),
                forall|k: int| 0 <= k < i ==> (#[trigger] self.buffers@[k]) is None,
            decreases self.buffers@.len() - i,
        {
            self.buffers.set(i, None);
            i = i + 1;
        }
        proof {
            assert forall|f: u32| #[trigger] self.cached(f) is None by {
                if let Some(p) = key_position(e, f) {
                    assert(self.buffers@[e[p].1 as int] is None);
                }
            }
        }
    }

    /// The cached data of `field`, if any.
    pub fn read(&self, field: FieldId) -> (r: Option<&[T]>)
        requires
            self.wf(),
        ensures
            match r {
                Some(s) => self.cached(field.0) == Some(s@),
                None => self.cached(field.0) is None,
            },
    {
        match index_map_get(&self.index, field.0) {
            Some(i) => {
                proof {
                    let e = index_map_entries(self.index);
                    let p = key_position(e, field.0)->Some_0;
                    assert(e[p].1 == p);
                }
                match &self.buffers[i] {
                    Some(b) => Some(b.as_slice()),
                    None => None,
                }
            },
            None => None,
        }
    }
}

impl<T: Copy> FieldCache<T> {
    /// Cache a copy of `data` for `field`; other fields are unchanged.
    pub fn insert(&mut self, field: FieldId, data: &[T])
        requires
            old(self).wf(),
        ensures
            final(self).wf(),
            final(self).cached(field.0) == Some(data@),
            forall|g: u32| g != field.0 ==> #[trigger] final(self).cached(g) == old(self).cached(g),
    {
        let copy = vstd::slice::slice_to_vec(data);
        let ghost e = index_map_entries(self.index);
        match index_map_get(&self.index, field.0) {
            Some(i) => {
                proof {
                    let p = key_position(e, field.0)->Some_0;
                    assert(e[p].1 == p);
                }
                self.buffers.set(i, Some(copy));
                proof {
                    assert forall|g: u32| g != field.0 implies #[trigger] self.cached(g) == old(self).cached(g) by {
                        if let Some(q) = key_position(e, g) {
                            assert(e[q].0 == g);
                            assert(e[q].1 == q);
                        }
                    }
                }
            },
            None => {
                let n = self.buffers.len();
                proof {
                    lemma_insert_keeps_unique(e, field.0, n);
                }
                index_map_insert(&mut self.index, field.0, n);
                self.buffers.push(Some(copy));
                proof {
                    let e2 = index_map_entries(self.index);
                    assert(e2 == e.push((field.0, n)));
                    lemma_key_position_unique(e2, field.0, n as int);
                    assert forall|g: u32| g != field.0 implies #[trigger] self.cached(g) == old(self).cached(g) by {
                        if let Some(q) = key_position(e, g) {
                            assert(e[q].0 == g);
                            lemma_key_position_unique(e2, g, q);
                        } else {
                            if let Some(q) = key_position(e2, g) {
                                assert(e2[q].0 == g);
                                if q < e.len() {
                                    assert(e[q].0 == g);
                                }
                            }
                        }
                    }
                }
            },
        }
    }

    /// Refill from `snapshot`: exactly the fields of `fields` that the
    /// snapshot holds are cached, with the snapshot's data.
    pub fn populate(&mut self, snapshot: &Snapshot<'_, T>, fields: &BaseFieldSet)
        requires
            old(self).wf(),
            snapshot.wf(),
        ensures
            final(self).wf(),
            forall|f: u32|
                #[trigger] final(self).cached(f) == if fields.ids().contains(FieldId(f)) {
                    snapshot.data(f)
                } else {
                    None
                },
    {
        self.clear();
        let ids = fields.field_ids();
        let mut k: usize = 0;
        while k < ids.len()
            invariant
                k <= ids@.len(),
                ids@ == fields.ids(),
                self.wf(),
                snapshot.wf(),
                forall|f: u32|
                    #[trigger] self.cached(f) == if ids@.subrange(0, k as int).contains(FieldId(f)) {
                        snapshot.data(f)
                    } else {
                        None
                    },
            decreases ids@.len() - k,
        {
            let field = ids[k];
            let ghost before = *self;
            match snapshot.read_field(field) {
                Some(data) => {
                    self.insert(field, data);
                },
                None => {},
            }
            proof {
                assert forall|f: u32|
                    #[trigger] self.cached(f) == if ids@.subrange(0, k + 1).contains(FieldId(f)) {
                        snapshot.data(f)
                    } else {
                        None
                    } by {
                    let pre = ids@.subrange(0, k as int);
                    let post = ids@.subrange(0, k + 1);
                    assert(post =~= pre.push(field));
                    assert(post.contains(FieldId(f)) == (pre.contains(FieldId(f)) || field == FieldId(f))) by {
                        if post.contains(FieldId(f)) {
                            let i = choose|i: int| 0 <= i < post.len() && post[i] == FieldId(f);
                            if i < pre.len() {
                                assert(pre[i] == FieldId(f));
                            }
                        }
                        if pre.contains(FieldId(f)) {
                            let i = choose|i: int| 0 <= i < pre.len() && pre[i] == FieldId(f);
                            assert(post[i] == FieldId(f));
                        }
                        if field == FieldId(f) {
                            assert(post[k as int] == FieldId(f));
                        }
                    }
                }
            }
            k = k + 1;
        }
        proof {
            assert(ids@.subrange(0, ids@.len() as int) =~= ids@);
        }
    }
}

/// Reads of one propagator: each routed field from the base-generation
/// cache or the staged cache, as its route says; unrouted fields read
/// nothing.
pub struct OverlayReader<'a, T> {
    routes: &'a [(FieldId, ReadSource)],
    base_cache: &'a FieldCache<T>,
    staged_cache: &'a FieldCache<T>,
}

/// The route of `f`: the first entry for it.
pub open spec fn route_of(routes: Seq<(FieldId, ReadSource)>, f: FieldId) -> Option<ReadSource>
    decreases routes.len(),
{
    if routes.len() == 0 {
        None
    } else if routes[0].0 == f {
        Some(routes[0].1)
    } else {
        route_of(routes.drop_first(), f)
    }
}

impl<'a, T> OverlayReader<'a, T> {
    /// The routes.
    pub closed spec fn routes_spec(&self) -> Seq<(FieldId, ReadSource)> {
        self.routes@
    }

    /// The base-generation cache.
    pub closed spec fn base_spec(&self) -> FieldCache<T> {
        *self.base_cache
    }

    /// The staged cache.
    pub closed spec fn staged_spec(&self) -> FieldCache<T> {
        *self.staged_cache
    }

    /// A reader over `routes` and the two caches.
    pub fn new(
        routes: &'a [(FieldId, ReadSource)],
        base_cache: &'a FieldCache<T>,
        staged_cache: &'a FieldCache<T>,
    ) -> (r: Self)
        ensures
            r.routes_spec() == routes@,
            r.base_spec() == *base_cache,
            r.staged_spec() == *staged_cache,
    {
        OverlayReader { routes, base_cache, staged_cache }
    }

    /// Read `field` from the cache its route names.
    pub fn read(&self, field: FieldId) -> (r: Option<&'a [T]>)
        requires
            self.base_spec().wf(),
            self.staged_spec().wf(),
        ensures
            match route_of(self.routes_spec(), field) {
                None => r is None,
                Some(ReadSource::BaseGen) => match r {
                    Some(s) => self.base_spec().cached(field.0) == Some(s@),
                    None => self.base_spec().cached(field.0) is None,
                },
                Some(ReadSource::Staged { .. }) => match r {
                    Some(s) => self.staged_spec().cached(field.0) == Some(s@),
                    None => self.staged_spec().cached(field.0) is None,
                },
            },
    {
        proof {
            assert(self.routes@.subrange(0, self.routes@.len() as int) =~= self.routes@);
        }
        let mut i: usize = 0;
        while i < self.routes.len()
            invariant
                i <= self.routes@.len(),
                self.base_spec().wf(),
                self.staged_spec().wf(),
                route_of(self.routes@, field) == route_of(self.routes@.subrange(
                    i as int,
                    self.routes@.len() as int,
                ), field),
            decreases self.routes@.len() - i,
        {
            let (f, source) = self.routes[i];
            let ghost rest = self.routes@.subrange(i as int, self.routes@.len() as int);
            proof {
                assert(rest[0] == self.routes@[i as int]);
                assert(rest.drop_first() =~= self.routes@.subrange(i + 1, self.routes@.len() as int));
            }
            if f == field {
                return match source {
                    ReadSource::BaseGen => self.base_cache.read(field),
                    ReadSource::Staged { .. } => self.staged_cache.read(field),
                };
            }
            i = i + 1;
        }
        None
    }
}

} // verus!
