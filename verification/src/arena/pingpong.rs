//! Double-buffered ping-pong arena orchestrator.
//!
//! Two per-tick segment pools alternate between staging (writable) and
//! published (readable) roles. The lifecycle per tick is: `begin_tick()`
//! pre-allocates every per-tick field in the staging pool; writes go to the
//! staging pool (sparse fields copy on first write); `publish()` swaps the
//! roles and advances the generation; `snapshot()` reads the published pool.
use vstd::prelude::*;

use std::sync::Arc;

use crate::arena::config::{bytes_of, sat_add, ArenaConfig};
use crate::arena::descriptor::{
    any_len_overflows, lemma_table_of_entries, table_of, FieldDescriptor, FieldEntry,
};
use crate::arena::handle::{FieldHandle, FieldLocation};
use crate::arena::scratch::ScratchRegion;
use crate::arena::segment::{alloc_fails, alloc_step, fresh_alloc, pool_state, SegmentList};
use crate::arena::sparse::{first_of_len, lemma_first_of_len, SparseSlab};
use crate::arena::static_arena::StaticArena;
use crate::shared::arc_clone;
use crate::error::ArenaError;
use crate::field::{FieldDef, FieldMutability};
use crate::id::{FieldId, ParameterVersion, TickId, WorldGenerationId};

verus! {

/// `[off, off + len)` of segment `seg` lies within pool `l`.
pub open spec fn range_ok<T: Copy>(l: SegmentList<T>, seg: u16, off: u32, len: u32) -> bool {
    seg < l.segs().len() && off + len <= l.size()
}

/// A handle points inside the pool its location names.
pub open spec fn handle_ok<T: Copy>(
    h: FieldHandle,
    per_tick: SegmentList<T>,
    sparse: SegmentList<T>,
) -> bool {
    match h.location {
        FieldLocation::PerTick { segment_index } => range_ok(per_tick, segment_index, h.offset, h.len),
        FieldLocation::Sparse { segment_index } => range_ok(sparse, segment_index, h.offset, h.len),
        FieldLocation::Static { .. } => true,
    }
}

/// A field's handle lives in the pool of its mutability class.
pub open spec fn location_matches(e: FieldEntry) -> bool {
    match e.meta.mutability {
        FieldMutability::PerTick => e.handle.location is PerTick && e.handle.len == e.meta.total_len,
        FieldMutability::Sparse => e.handle.location is Sparse && e.handle.len == e.meta.total_len,
        FieldMutability::Static => e.handle.location is Static,
    }
}

/// `s` with the elements from `start` on replaced by `vals`.
pub open spec fn splice<T>(s: Seq<T>, start: int, vals: Seq<T>) -> Seq<T> {
    s.subrange(0, start) + vals + s.subrange(start + vals.len(), s.len() as int)
}

/// The data a handle designates in the given pools.
pub open spec fn resolve<T: Copy>(
    id: u32,
    h: FieldHandle,
    per_tick: SegmentList<T>,
    sparse: SegmentList<T>,
    statics: StaticArena<T>,
) -> Seq<T> {
    match h.location {
        FieldLocation::PerTick { segment_index } => per_tick.segs()[segment_index as int].0.subrange(
            h.offset as int,
            h.offset + h.len,
        ),
        FieldLocation::Sparse { segment_index } => sparse.segs()[segment_index as int].0.subrange(
            h.offset as int,
            h.offset + h.len,
        ),
        FieldLocation::Static { .. } => match statics.field_data(id) {
            Some(d) => d,
            None => Seq::empty(),
        },
    }
}

/// The number of segments a pool made with `max_segments` may hold.
pub open spec fn segment_cap(max_segments: u16) -> nat {
    if max_segments == 0 {
        1
    } else {
        max_segments as nat
    }
}

/// The allocation state after allocating, in table order, every field of
/// `t` whose mutability is `m`, starting from state `st`; `None` when one of
/// them does not fit.
pub open spec fn fill_class(
    st: (nat, nat, nat),
    t: Seq<(u32, FieldEntry)>,
    m: FieldMutability,
    size: nat,
    max: nat,
) -> Option<(nat, nat, nat)>
    decreases t.len(),
{
    if t.len() == 0 {
        Some(st)
    } else {
        match fill_class(st, t.drop_last(), m, size, max) {
            None => None,
            Some(s) => if t.last().1.meta.mutability == m {
                alloc_step(s, t.last().1.meta.total_len as nat, size, max)
            } else {
                Some(s)
            },
        }
    }
}

/// Whether an arena can be built from `defs` under `config` with `statics`:
/// no field length overflows, the static arena holds every static field,
/// and the sparse fields, and the per-tick fields, each fit in order into a
/// fresh pool of their share of the segments.
pub open spec fn rebuild_fits<T: Copy>(
    defs: Seq<(FieldId, FieldDef)>,
    config: ArenaConfig,
    statics: StaticArena<T>,
) -> bool {
    let t = table_of(defs, config.cell_count);
    let per_tick_max = config.max_segments / 3;
    let sparse_max = (config.max_segments - 2 * per_tick_max) as u16;
    &&& !any_len_overflows(defs, config.cell_count)
    &&& forall|j: int|
        0 <= j < t.len() && (#[trigger] t[j]).1.meta.mutability == FieldMutability::Static
            ==> statics.location_of(t[j].0) is Some
    &&& fill_class((0, 0, 1), t, FieldMutability::Sparse, config.segment_size as nat, segment_cap(sparse_max))
        is Some
    &&& fill_class(
        (0, 0, 1),
        t,
        FieldMutability::PerTick,
        config.segment_size as nat,
        segment_cap(per_tick_max),
    ) is Some
}

/// Setting up the sparse and static fields of table `t`, in table order,
/// from sparse pool state `st`, fails at position `j`: a static field the
/// static arena does not hold, or a sparse field that no longer fits.
pub open spec fn init_fails_at<T: Copy>(
    st: (nat, nat, nat),
    t: Seq<(u32, FieldEntry)>,
    statics: StaticArena<T>,
    size: nat,
    max: nat,
    j: int,
) -> bool {
    &&& 0 <= j < t.len()
    &&& {
        ||| t[j].1.meta.mutability == FieldMutability::Static && statics.location_of(t[j].0) is None
        ||| t[j].1.meta.mutability == FieldMutability::Sparse && fill_class(
            st,
            t.subrange(0, j + 1),
            FieldMutability::Sparse,
            size,
            max,
        ) is None
    }
}

/// Position `j` is the first at which setting up sparse and static fields fails.
pub open spec fn init_first_failure<T: Copy>(
    st: (nat, nat, nat),
    t: Seq<(u32, FieldEntry)>,
    statics: StaticArena<T>,
    size: nat,
    max: nat,
    j: int,
) -> bool {
    &&& init_fails_at(st, t, statics, size, max, j)
    &&& forall|k: int| 0 <= k < j ==> !#[trigger] init_fails_at(st, t, statics, size, max, k)
}

/// The error building an arena fails with, when its configuration is valid
/// and no field length overflows: the fields are set up in table order, so
/// the first static field missing from the static arena (`UnknownField`
/// naming it) or sparse field that does not fit (`CapacityExceeded`) decides;
/// when there is none, the per-tick fields did not fit (`CapacityExceeded`).
pub open spec fn new_error<T: Copy>(
    defs: Seq<(FieldId, FieldDef)>,
    config: ArenaConfig,
    statics: StaticArena<T>,
    err: ArenaError,
) -> bool {
    let t = table_of(defs, config.cell_count);
    let per_tick_max = config.max_segments / 3;
    let sparse_max = (config.max_segments - 2 * per_tick_max) as u16;
    let size = config.segment_size as nat;
    let cap = segment_cap(sparse_max);
    if exists|j: int| init_first_failure((0, 0, 1), t, statics, size, cap, j) {
        let j = choose|j: int| init_first_failure((0, 0, 1), t, statics, size, cap, j);
        if t[j].1.meta.mutability == FieldMutability::Static {
            err == ArenaError::UnknownField { field: FieldId(t[j].0) }
        } else {
            err is CapacityExceeded
        }
    } else {
        &&& err is CapacityExceeded
        &&& fill_class((0, 0, 1), t, FieldMutability::PerTick, size, segment_cap(per_tick_max)) is None
    }
}

/// The first failure is unique.
proof fn lemma_first_failure_unique<T: Copy>(
    st: (nat, nat, nat),
    t: Seq<(u32, FieldEntry)>,
    statics: StaticArena<T>,
    size: nat,
    max: nat,
    j: int,
    k: int,
)
    requires
        init_first_failure(st, t, statics, size, max, j),
        init_first_failure(st, t, statics, size, max, k),
    ensures
        j == k,
{
    if j < k {
        assert(!init_fails_at(st, t, statics, size, max, j));
    } else if k < j {
        assert(!init_fails_at(st, t, statics, size, max, k));
    }
}

/// Two tables list the same fields with the same metadata, in the same order.
pub open spec fn metas_match(t1: Seq<(u32, FieldEntry)>, t2: Seq<(u32, FieldEntry)>) -> bool {
    &&& t1.len() == t2.len()
    &&& forall|i: int| 0 <= i < t1.len() ==> #[trigger] t1[i].1.meta == t2[i].1.meta
}

/// Once a prefix of the table does not fit, the whole table does not.
proof fn lemma_fill_prefix_none(
    st: (nat, nat, nat),
    t: Seq<(u32, FieldEntry)>,
    k: int,
    m: FieldMutability,
    size: nat,
    max: nat,
)
    requires
        0 <= k <= t.len(),
        fill_class(st, t.subrange(0, k), m, size, max) is None,
    ensures
        fill_class(st, t, m, size, max) is None,
    decreases t.len() - k,
{
    if k < t.len() {
        assert(t.subrange(0, k + 1).drop_last() =~= t.subrange(0, k));
        lemma_fill_prefix_none(st, t, k + 1, m, size, max);
    } else {
        assert(t.subrange(0, k) =~= t);
    }
}

/// Filling depends on the fields' metadata only.
proof fn lemma_fill_same_meta(
    st: (nat, nat, nat),
    t1: Seq<(u32, FieldEntry)>,
    t2: Seq<(u32, FieldEntry)>,
    m: FieldMutability,
    size: nat,
    max: nat,
)
    requires
        t1.len() == t2.len(),
        forall|i: int| 0 <= i < t1.len() ==> #[trigger] t1[i].1.meta == t2[i].1.meta,
    ensures
        fill_class(st, t1, m, size, max) == fill_class(st, t2, m, size, max),
    decreases t1.len(),
{
    if t1.len() > 0 {
        lemma_fill_same_meta(st, t1.drop_last(), t2.drop_last(), m, size, max);
        assert(t1.last().1.meta == t2[t1.len() - 1].1.meta);
    }
}

/// Whether a pool starts with one segment or more (within its cap), the same
/// fields fit, at the same positions.
proof fn lemma_fill_count(
    c: nat,
    u: nat,
    n1: nat,
    n2: nat,
    t: Seq<(u32, FieldEntry)>,
    m: FieldMutability,
    size: nat,
    max: nat,
)
    requires
        c < n1 <= max,
        c < n2 <= max,
    ensures
        match (fill_class((c, u, n1), t, m, size, max), fill_class((c, u, n2), t, m, size, max)) {
            (None, None) => true,
            (Some(a), Some(b)) => a.0 == b.0 && a.1 == b.1 && a.0 < a.2 <= max && b.0 < b.2 <= max,
            _ => false,
        },
    decreases t.len(),
{
    if t.len() > 0 {
        lemma_fill_count(c, u, n1, n2, t.drop_last(), m, size, max);
    }
}

/// The data field `f` holds under table `t` in the given pools, if registered.
pub open spec fn data_of<T: Copy>(
    t: Seq<(u32, FieldEntry)>,
    f: u32,
    per_tick: SegmentList<T>,
    sparse: SegmentList<T>,
    statics: StaticArena<T>,
) -> Option<Seq<T>> {
    match table_lookup(t, f) {
        Some(e) => Some(resolve(f, e.handle, per_tick, sparse, statics)),
        None => None,
    }
}

/// The entry of field `f` in a table, if registered.
pub open spec fn table_lookup(t: Seq<(u32, FieldEntry)>, f: u32) -> Option<FieldEntry> {
    match crate::arena::descriptor::table_position(t, f) {
        Some(i) => Some(t[i].1),
        None => None,
    }
}

/// Every handle of a table points inside its pool, matching its class.
pub open spec fn table_ok<T: Copy>(
    t: Seq<(u32, FieldEntry)>,
    per_tick: SegmentList<T>,
    sparse: SegmentList<T>,
) -> bool {
    forall|i: int|
        0 <= i < t.len() ==> handle_ok((#[trigger] t[i]).1.handle, per_tick, sparse)
            && location_matches(t[i].1)
}

/// The segment a handle's location names (0 for a static location).
pub open spec fn seg_of(h: FieldHandle) -> int {
    match h.location {
        FieldLocation::PerTick { segment_index } => segment_index as int,
        FieldLocation::Sparse { segment_index } => segment_index as int,
        FieldLocation::Static { .. } => 0,
    }
}

/// The ranges of two handles lie in different segments or do not overlap.
pub open spec fn apart(h1: FieldHandle, h2: FieldHandle) -> bool {
    seg_of(h1) != seg_of(h2) || h1.offset + h1.len <= h2.offset || h2.offset + h2.len
        <= h1.offset
}

/// A handle's range lies below the used count of its segment in `pool`.
pub open spec fn in_use<T: Copy>(h: FieldHandle, pool: SegmentList<T>) -> bool {
    0 <= seg_of(h) < pool.segs().len() && h.offset + h.len <= pool.segs()[seg_of(h)].1
}

/// Distinct entries of `t` located in the sparse pool have ranges apart.
pub open spec fn sparse_apart(t: Seq<(u32, FieldEntry)>) -> bool {
    forall|i: int, j: int|
        0 <= i < t.len() && 0 <= j < t.len() && i != j && (#[trigger] t[i]).1.handle.location
            is Sparse && (#[trigger] t[j]).1.handle.location is Sparse ==> apart(
            t[i].1.handle,
            t[j].1.handle,
        )
}

/// Distinct entries of `t` located in a per-tick pool have ranges apart.
pub open spec fn per_tick_apart(t: Seq<(u32, FieldEntry)>) -> bool {
    forall|i: int, j: int|
        0 <= i < t.len() && 0 <= j < t.len() && i != j && (#[trigger] t[i]).1.handle.location
            is PerTick && (#[trigger] t[j]).1.handle.location is PerTick ==> apart(
            t[i].1.handle,
            t[j].1.handle,
        )
}

/// Every sparse handle of `t` is in use in `sparse` and no newer than `g`.
pub open spec fn sparse_in_use<T: Copy>(t: Seq<(u32, FieldEntry)>, sparse: SegmentList<T>, g: u32) -> bool {
    forall|i: int|
        0 <= i < t.len() && (#[trigger] t[i]).1.handle.location is Sparse ==> in_use(
            t[i].1.handle,
            sparse,
        ) && t[i].1.handle.generation <= g
}

/// How the two descriptors share the sparse pool: every sparse range of
/// either is in use, no staging handle is newer than `staging_gen` and no
/// published one newer than `published_gen`; distinct entries of one
/// descriptor are apart, and an entry of one and an entry of the other hold
/// the same handle or are apart.
pub open spec fn sparse_sound<T: Copy>(
    staging: Seq<(u32, FieldEntry)>,
    published: Seq<(u32, FieldEntry)>,
    sparse: SegmentList<T>,
    staging_gen: u32,
    published_gen: u32,
) -> bool {
    &&& sparse_in_use(staging, sparse, staging_gen)
    &&& sparse_in_use(published, sparse, published_gen)
    &&& sparse_apart(staging)
    &&& sparse_apart(published)
    &&& forall|i: int, j: int|
        0 <= i < staging.len() && 0 <= j < published.len() && (#[trigger] staging[i]).1.handle.location
            is Sparse && (#[trigger] published[j]).1.handle.location is Sparse ==> staging[i].1.handle
            == published[j].1.handle || apart(staging[i].1.handle, published[j].1.handle)
}

/// Pool `b` agrees with pool `a` everywhere but in `[lo, hi)` of segment `s`.
pub open spec fn same_outside<T: Copy>(a: SegmentList<T>, b: SegmentList<T>, s: int, lo: int, hi: int) -> bool {
    &&& a.segs().len() <= b.segs().len()
    &&& forall|j: int| 0 <= j < a.segs().len() && j != s ==> #[trigger] b.segs()[j].0 == a.segs()[j].0
    &&& 0 <= s < a.segs().len() ==> b.segs()[s].0.len() == a.segs()[s].0.len()
    &&& 0 <= s < a.segs().len() ==> forall|i: int|
        0 <= i < a.segs()[s].0.len() && !(lo <= i < hi) ==> #[trigger] b.segs()[s].0[i]
            == a.segs()[s].0[i]
}

/// A range of `a` outside the changed window reads the same in `b`.
proof fn lemma_same_outside<T: Copy>(
    a: SegmentList<T>,
    b: SegmentList<T>,
    s: int,
    lo: int,
    hi: int,
    seg: int,
    off: int,
    len: int,
)
    requires
        same_outside(a, b, s, lo, hi),
        0 <= seg < a.segs().len(),
        0 <= off,
        0 <= len,
        off + len <= a.segs()[seg].0.len(),
        seg != s || off + len <= lo || hi <= off,
    ensures
        b.segs()[seg].0.subrange(off, off + len) == a.segs()[seg].0.subrange(off, off + len),
{
    assert(b.segs()[seg].0.subrange(off, off + len) =~= a.segs()[seg].0.subrange(off, off + len));
}

/// Writing `vals` at `at` of segment `s` changes only `[at, at + vals.len())`.
proof fn lemma_write_same_outside<T: Copy>(a: SegmentList<T>, b: SegmentList<T>, s: int, at: int, vals: Seq<T>)
    requires
        0 <= s < a.segs().len(),
        0 <= at,
        at + vals.len() <= a.size(),
        a.segs()[s].0.len() == a.size(),
        b.segs() == a.segs().update(
            s,
            (
                a.segs()[s].0.subrange(0, at) + vals + a.segs()[s].0.subrange(
                    at + vals.len(),
                    a.size() as int,
                ),
                a.segs()[s].1,
            ),
        ),
    ensures
        same_outside(a, b, s, at, at + vals.len()),
        forall|j: int| 0 <= j < a.segs().len() ==> #[trigger] b.segs()[j].1 == a.segs()[j].1,
        b.segs().len() == a.segs().len(),
{
    let c = a.segs()[s].0;
    let d = b.segs()[s].0;
    assert forall|i: int| 0 <= i < c.len() && !(at <= i < at + vals.len()) implies #[trigger] d[i]
        == c[i] by {
        if i < at {
            assert(d[i] == (c.subrange(0, at) + vals)[i]);
        } else {
            assert(d[i] == c.subrange(at + vals.len(), a.size() as int)[i - at - vals.len()]);
        }
    }
}

/// A fresh allocation keeps every range in use where it was, still in use
/// and reading the same, and lies after all of them in its segment; the
/// new range holds the fill value.
proof fn lemma_fresh_keeps<T: Copy>(
    a: SegmentList<T>,
    b: SegmentList<T>,
    seg: int,
    off: int,
    len: int,
    h: FieldHandle,
)
    requires
        fresh_alloc(a, b, seg, off, len),
        a.wf(),
        0 <= len,
        in_use(h, a),
    ensures
        in_use(h, b),
        seg_of(h) != seg || h.offset + h.len <= off,
        b.segs()[seg_of(h)].0.subrange(h.offset as int, h.offset + h.len) == a.segs()[seg_of(
            h,
        )].0.subrange(h.offset as int, h.offset + h.len),
        b.segs()[seg].0.subrange(off, off + len) == Seq::new(len as nat, |i: int| a.fill()),
{
    let s = seg_of(h);
    assert(a.segs()[s].0.len() == a.size());
    assert(a.segs()[s].1 <= a.size());
    if s == seg {
        assert forall|k: int| 0 <= k < h.len implies #[trigger] b.segs()[s].0[h.offset + k]
            == a.segs()[s].0[h.offset + k] by {
            let i = h.offset + k;
            assert(0 <= i < off);
            assert(b.segs()[seg].0[i] == a.segs()[seg].0[i]);
        }
        assert(b.segs()[s].0.subrange(h.offset as int, h.offset + h.len) =~= a.segs()[s].0.subrange(
            h.offset as int,
            h.offset + h.len,
        ));
    } else {
        assert(b.segs()[s] == a.segs()[s]);
    }
    assert(b.segs()[seg].0.subrange(off, off + len) =~= Seq::new(len as nat, |i: int| a.fill()));
}

/// Pool `b` holds what pool `a` holds wherever `a` has elements in use.
pub open spec fn keeps_used<T: Copy>(a: SegmentList<T>, b: SegmentList<T>) -> bool {
    &&& a.segs().len() <= b.segs().len()
    &&& forall|j: int, k: int|
        0 <= j < a.segs().len() && 0 <= k < a.segs()[j].1 ==> #[trigger] b.segs()[j].0[k]
            == a.segs()[j].0[k]
}

/// A fresh allocation keeps what was in use.
proof fn lemma_fresh_keeps_used<T: Copy>(a: SegmentList<T>, b: SegmentList<T>, seg: int, off: int, len: int)
    requires
        fresh_alloc(a, b, seg, off, len),
    ensures
        keeps_used(a, b),
{
    assert forall|j: int, k: int| 0 <= j < a.segs().len() && 0 <= k < a.segs()[j].1 implies #[trigger] b.segs()[j].0[k]
        == a.segs()[j].0[k] by {
        if j != seg {
            assert(b.segs()[j] == a.segs()[j]);
        }
    }
}

/// Changing a window that lies past everything `a` has in use keeps what was in use.
proof fn lemma_keeps_used_outside<T: Copy>(
    a: SegmentList<T>,
    b: SegmentList<T>,
    c: SegmentList<T>,
    s: int,
    lo: int,
    hi: int,
)
    requires
        keeps_used(a, b),
        same_outside(b, c, s, lo, hi),
        a.wf(),
        b.wf(),
        a.size() == b.size(),
        s >= a.segs().len() || lo >= a.segs()[s].1,
    ensures
        keeps_used(a, c),
{
    assert forall|j: int, k: int| 0 <= j < a.segs().len() && 0 <= k < a.segs()[j].1 implies #[trigger] c.segs()[j].0[k]
        == a.segs()[j].0[k] by {
        assert(b.segs()[j].0[k] == a.segs()[j].0[k]);
        assert(a.segs()[j].1 <= a.size());
        assert(b.segs()[j].0.len() == b.size());
        if j != s {
            assert(c.segs()[j].0 == b.segs()[j].0);
        } else {
            assert(c.segs()[s].0[k] == b.segs()[s].0[k]);
        }
    }
}

/// With distinct ids, tables that agree on every id have each id at the same position.
proof fn lemma_same_positions(t1: Seq<(u32, FieldEntry)>, t2: Seq<(u32, FieldEntry)>, g: u32)
    requires
        t1.len() == t2.len(),
        forall|i: int| 0 <= i < t1.len() ==> #[trigger] t2[i].0 == t1[i].0,
        forall|a: int, b: int| 0 <= a < b < t1.len() ==> t1[a].0 != t1[b].0,
    ensures
        crate::arena::descriptor::table_position(t1, g) == crate::arena::descriptor::table_position(
            t2,
            g,
        ),
{
    if let Some(i) = crate::arena::descriptor::table_position(t1, g) {
        crate::arena::descriptor::lemma_table_position_unique(t1, g, i);
        assert(t2[i].0 == g);
        crate::arena::descriptor::lemma_table_position_unique(t2, g, i);
    } else {
        if let Some(i) = crate::arena::descriptor::table_position(t2, g) {
            assert(t1[i].0 == g);
        }
    }
}

/// A write inside the per-tick range of entry `pos` leaves every other
/// field's data as it was, when per-tick ranges are apart.
proof fn lemma_frame_per_tick<T: Copy>(
    t: Seq<(u32, FieldEntry)>,
    pos: int,
    p1: SegmentList<T>,
    p2: SegmentList<T>,
    sparse: SegmentList<T>,
    statics: StaticArena<T>,
    lo: int,
    hi: int,
)
    requires
        0 <= pos < t.len(),
        forall|a: int, b: int| 0 <= a < b < t.len() ==> t[a].0 != t[b].0,
        table_ok(t, p1, sparse),
        p1.wf(),
        t[pos].1.handle.location is PerTick,
        same_outside(p1, p2, seg_of(t[pos].1.handle), lo, hi),
        t[pos].1.handle.offset <= lo,
        hi <= t[pos].1.handle.offset + t[pos].1.handle.len,
        per_tick_apart(t),
    ensures
        forall|g: u32|
            g != t[pos].0 ==> #[trigger] data_of(t, g, p2, sparse, statics) == data_of(
                t,
                g,
                p1,
                sparse,
                statics,
            ),
{
    assert forall|g: u32| g != t[pos].0 implies #[trigger] data_of(t, g, p2, sparse, statics)
        == data_of(t, g, p1, sparse, statics) by {
        if let Some(pg) = crate::arena::descriptor::table_position(t, g) {
            let hg = t[pg].1.handle;
            if hg.location is PerTick {
                assert(t[pg].0 == g);
                assert(apart(hg, t[pos].1.handle));
                assert(handle_ok(hg, p1, sparse));
                assert(p1.segs()[seg_of(hg)].0.len() == p1.size());
                lemma_same_outside(
                    p1,
                    p2,
                    seg_of(t[pos].1.handle),
                    lo,
                    hi,
                    seg_of(hg),
                    hg.offset as int,
                    hg.len as int,
                );
            }
        }
    }
}

/// A write inside the sparse range of entry `pos` leaves every other
/// field's data as it was, when sparse ranges are apart.
proof fn lemma_frame_sparse<T: Copy>(
    t: Seq<(u32, FieldEntry)>,
    pos: int,
    per_tick: SegmentList<T>,
    s1: SegmentList<T>,
    s2: SegmentList<T>,
    statics: StaticArena<T>,
    lo: int,
    hi: int,
)
    requires
        0 <= pos < t.len(),
        forall|a: int, b: int| 0 <= a < b < t.len() ==> t[a].0 != t[b].0,
        table_ok(t, per_tick, s1),
        s1.wf(),
        t[pos].1.handle.location is Sparse,
        same_outside(s1, s2, seg_of(t[pos].1.handle), lo, hi),
        t[pos].1.handle.offset <= lo,
        hi <= t[pos].1.handle.offset + t[pos].1.handle.len,
        sparse_apart(t),
    ensures
        forall|g: u32|
            g != t[pos].0 ==> #[trigger] data_of(t, g, per_tick, s2, statics) == data_of(
                t,
                g,
                per_tick,
                s1,
                statics,
            ),
{
    assert forall|g: u32| g != t[pos].0 implies #[trigger] data_of(t, g, per_tick, s2, statics)
        == data_of(t, g, per_tick, s1, statics) by {
        if let Some(pg) = crate::arena::descriptor::table_position(t, g) {
            let hg = t[pg].1.handle;
            if hg.location is Sparse {
                assert(t[pg].0 == g);
                assert(apart(hg, t[pos].1.handle));
                assert(handle_ok(hg, per_tick, s1));
                assert(s1.segs()[seg_of(hg)].0.len() == s1.size());
                lemma_same_outside(
                    s1,
                    s2,
                    seg_of(t[pos].1.handle),
                    lo,
                    hi,
                    seg_of(hg),
                    hg.offset as int,
                    hg.len as int,
                );
            }
        }
    }
}

/// Replacing the handle at `pos` and changing the sparse pool only outside
/// what was in use leaves every other field's data as it was.
proof fn lemma_frame_fresh<T: Copy>(
    t1: Seq<(u32, FieldEntry)>,
    t2: Seq<(u32, FieldEntry)>,
    pos: int,
    per_tick: SegmentList<T>,
    s1: SegmentList<T>,
    s2: SegmentList<T>,
    statics: StaticArena<T>,
    g_bound: u32,
)
    requires
        0 <= pos < t1.len(),
        t2.len() == t1.len(),
        forall|i: int| 0 <= i < t1.len() && i != pos ==> #[trigger] t2[i] == t1[i],
        t2[pos].0 == t1[pos].0,
        forall|a: int, b: int| 0 <= a < b < t1.len() ==> t1[a].0 != t1[b].0,
        sparse_in_use(t1, s1, g_bound),
        s1.wf(),
        s2.wf(),
        s1.size() == s2.size(),
        keeps_used(s1, s2),
    ensures
        forall|g: u32|
            g != t1[pos].0 ==> #[trigger] data_of(t2, g, per_tick, s2, statics) == data_of(
                t1,
                g,
                per_tick,
                s1,
                statics,
            ),
{
    assert forall|i: int| 0 <= i < t1.len() implies #[trigger] t2[i].0 == t1[i].0 by {
        if i != pos {
            assert(t2[i] == t1[i]);
        }
    }
    assert forall|g: u32| g != t1[pos].0 implies #[trigger] data_of(t2, g, per_tick, s2, statics)
        == data_of(t1, g, per_tick, s1, statics) by {
        lemma_same_positions(t1, t2, g);
        if let Some(pg) = crate::arena::descriptor::table_position(t1, g) {
            assert(t1[pg].0 == g);
            assert(pg != pos);
            assert(t2[pg] == t1[pg]);
            let hg = t1[pg].1.handle;
            if hg.location is Sparse {
                let sg = seg_of(hg);
                assert(in_use(hg, s1));
                assert(s1.segs()[sg].0.len() == s1.size());
                assert(s2.segs()[sg].0.len() == s2.size());
                assert(s1.segs()[sg].1 <= s1.size());
                assert forall|k: int| 0 <= k < hg.len implies #[trigger] s2.segs()[sg].0[hg.offset + k]
                    == s1.segs()[sg].0[hg.offset + k] by {
                    assert(0 <= hg.offset + k < s1.segs()[sg].1);
                }
                assert(s2.segs()[sg].0.subrange(hg.offset as int, hg.offset + hg.len) =~= s1.segs()[sg].0.subrange(
                    hg.offset as int,
                    hg.offset + hg.len,
                ));
            }
        }
    }
}

/// Pool `b` keeps every segment of pool `a`, with the same segment size.
pub open spec fn grows<T: Copy>(a: SegmentList<T>, b: SegmentList<T>) -> bool {
    a.segs().len() <= b.segs().len() && a.size() == b.size()
}

proof fn lemma_table_ok_grows<T: Copy>(
    t: Seq<(u32, FieldEntry)>,
    p1: SegmentList<T>,
    s1: SegmentList<T>,
    p2: SegmentList<T>,
    s2: SegmentList<T>,
)
    requires
        table_ok(t, p1, s1),
        grows(p1, p2),
        grows(s1, s2),
    ensures
        table_ok(t, p2, s2),
{
    assert forall|i: int| 0 <= i < t.len() implies handle_ok((#[trigger] t[i]).1.handle, p2, s2)
        && location_matches(t[i].1) by {
        assert(handle_ok(t[i].1.handle, p1, s1));
    }
}

/// Every range the slab tracks (live, pending and retired) lies in `sparse`.
pub open spec fn slab_ok<T: Copy>(slab: SparseSlab, sparse: SegmentList<T>) -> bool {
    &&& forall|i: int|
        0 <= i < slab.retired().len() ==> range_ok(
            sparse,
            (#[trigger] slab.retired()[i]).segment_index,
            slab.retired()[i].offset,
            slab.retired()[i].len,
        )
    &&& forall|i: int|
        0 <= i < slab.pending().len() ==> range_ok(
            sparse,
            (#[trigger] slab.pending()[i]).segment_index,
            slab.pending()[i].offset,
            slab.pending()[i].len,
        )
    &&& forall|f: u32|
        #[trigger] slab.live_slot(f) is Some ==> range_ok(
            sparse,
            slab.live_slot(f)->Some_0.segment_index,
            slab.live_slot(f)->Some_0.offset,
            slab.live_slot(f)->Some_0.len,
        )
}
/// Writing `vals` at `off + start` of `c` splices them into the window
/// `[off, off + len)`.
proof fn lemma_splice_window<T>(c: Seq<T>, off: int, len: int, start: int, vals: Seq<T>)
    requires
        0 <= off,
        0 <= start,
        start + vals.len() <= len,
        off + len <= c.len(),
    ensures
        splice(c, off + start, vals).subrange(off, off + len) == splice(
            c.subrange(off, off + len),
            start,
            vals,
        ),
        splice(c, off + start, vals).len() == c.len(),
{
    assert(splice(c, off + start, vals).subrange(off, off + len) =~= splice(
        c.subrange(off, off + len),
        start,
        vals,
    ));
}

/// Whether `n` is a power of two.
pub open spec fn is_power_of_two(n: u32) -> bool {
    exists|k: u32| k < 32 && n == (1u32 << k)
}

/// Whether `n` is a power of two.
fn power_of_two(n: u32) -> (b: bool)
    ensures
        b == is_power_of_two(n),
{
    let mut k: u32 = 0;
    while k < 32
        invariant
            k <= 32,
            forall|j: u32| j < k ==> n != (1u32 << j),
        decreases 32 - k,
    {
        if n == (1u32 << k) {
            return true;
        }
        k = k + 1;
    }
    false
}

/// Allocate every per-tick field of `desc` in `pool`, in registration order:
/// position `j` gets a handle exactly when field `j` is per-tick.
fn alloc_per_tick<T: Copy>(pool: &mut SegmentList<T>, desc: &FieldDescriptor, generation: u32) -> (r:
    Result<Vec<Option<FieldHandle>>, ArenaError>)
    requires
        old(pool).wf(),
        desc.wf(),
    ensures
        final(pool).wf(),
        grows(*old(pool), *final(pool)),
        final(pool).fill() == old(pool).fill(),
        final(pool).max_count() == old(pool).max_count(),
        r is Ok <==> fill_class(
            pool_state(*old(pool)),
            desc.table(),
            FieldMutability::PerTick,
            old(pool).size(),
            old(pool).max_count(),
        ) is Some,
        r is Err ==> r->Err_0 is CapacityExceeded && exists|j: int|
            0 <= j < desc.table().len() && (#[trigger] desc.table()[j]).1.meta.mutability
                == FieldMutability::PerTick && alloc_fails(*final(pool), desc.table()[j].1.meta.total_len),
        r is Ok ==> {
            let hs = r->Ok_0@;
            &&& hs.len() == desc.table().len()
            &&& forall|j: int|
                0 <= j < hs.len() ==> {
                    &&& ((#[trigger] hs[j]) is Some <==> desc.table()[j].1.meta.mutability
                        == FieldMutability::PerTick)
                    &&& hs[j] is Some ==> {
                        let h = hs[j]->Some_0;
                        &&& h.generation == generation
                        &&& h.len == desc.table()[j].1.meta.total_len
                        &&& h.location is PerTick
                        &&& range_ok(*final(pool), h.location->PerTick_segment_index, h.offset, h.len)
                        &&& in_use(h, *final(pool))
                        &&& final(pool).segs()[seg_of(h)].0.subrange(h.offset as int, h.offset + h.len)
                            == Seq::new(h.len as nat, |x: int| old(pool).fill())
                    }
                }
            &&& forall|j: int, k: int|
                0 <= j < hs.len() && 0 <= k < hs.len() && j != k && (#[trigger] hs[j]) is Some && (
                #[trigger] hs[k]) is Some ==> apart(hs[j]->Some_0, hs[k]->Some_0)
        },
{
    let n = desc.len();
    let mut hs: Vec<Option<FieldHandle>> = Vec::new();
    let mut i: usize = 0;
    while i < n
        invariant
            desc.wf(),
            n == desc.table().len(),
            i <= n,
            pool.wf(),
            grows(*old(pool), *pool),
            pool.fill() == old(pool).fill(),
            pool.max_count() == old(pool).max_count(),
            pool.size() == old(pool).size(),
            fill_class(
                pool_state(*old(pool)),
                desc.table().subrange(0, i as int),
                FieldMutability::PerTick,
                old(pool).size(),
                old(pool).max_count(),
            ) == Some(pool_state(*pool)),
            hs@.len() == i,
            forall|j: int|
                0 <= j < i ==> {
                    &&& ((#[trigger] hs@[j]) is Some <==> desc.table()[j].1.meta.mutability
                        == FieldMutability::PerTick)
                    &&& hs@[j] is Some ==> {
                        let h = hs@[j]->Some_0;
                        &&& h.generation == generation
                        &&& h.len == desc.table()[j].1.meta.total_len
                        &&& h.location is PerTick
                        &&& range_ok(*pool, h.location->PerTick_segment_index, h.offset, h.len)
                        &&& in_use(h, *pool)
                        &&& pool.segs()[seg_of(h)].0.subrange(h.offset as int, h.offset + h.len)
                            == Seq::new(h.len as nat, |x: int| old(pool).fill())
                    }
                },
            forall|j: int, k: int|
                0 <= j < i && 0 <= k < i && j != k && (#[trigger] hs@[j]) is Some && (
                #[trigger] hs@[k]) is Some ==> apart(hs@[j]->Some_0, hs@[k]->Some_0),
        decreases n - i,
    {
        let (_, entry) = desc.entry_at(i);
        let mutability = entry.meta.mutability;
        let total = entry.meta.total_len;
        let ghost before = *pool;
        let ghost hs_before = hs@;
        proof {
            assert(desc.table().subrange(0, i + 1).drop_last() =~= desc.table().subrange(0, i as int));
        }
        if mutability == FieldMutability::PerTick {
            match pool.allocate(total) {
                Ok((seg, off)) => {
                    proof {
                        assert forall|j: int| 0 <= j < i && (#[trigger] hs_before[j]) is Some implies {
                            let h = hs_before[j]->Some_0;
                            &&& in_use(h, *pool)
                            &&& (seg_of(h) != seg || h.offset + h.len <= off)
                            &&& pool.segs()[seg_of(h)].0.subrange(h.offset as int, h.offset + h.len)
                                == Seq::new(h.len as nat, |x: int| old(pool).fill())
                        } by {
                            lemma_fresh_keeps(before, *pool, seg as int, off as int, total as int, hs_before[j]->Some_0);
                        }
                        assert(pool.segs()[seg as int].0.subrange(off as int, off + total) =~= Seq::new(
                            total as nat,
                            |x: int| old(pool).fill(),
                        ));
                    }
                    hs.push(
                        Some(
                            FieldHandle::new(
                                generation,
                                off,
                                total,
                                FieldLocation::PerTick { segment_index: seg },
                            ),
                        ),
                    );
                },
                Err(e) => {
                    proof {
                        assert(desc.table()[i as int].1.meta.mutability == FieldMutability::PerTick);
                        lemma_fill_prefix_none(
                            pool_state(*old(pool)),
                            desc.table(),
                            i + 1,
                            FieldMutability::PerTick,
                            old(pool).size(),
                            old(pool).max_count(),
                        );
                    }
                    return Err(e);
                },
            }
        } else {
            hs.push(None);
        }
        i = i + 1;
    }
    proof {
        assert(desc.table().subrange(0, n as int) =~= desc.table());
    }
    Ok(hs)
}

/// Give position `j` of `desc` the handle `hs[j]` wherever there is one.
fn apply_handles(desc: &mut FieldDescriptor, hs: &Vec<Option<FieldHandle>>)
    requires
        old(desc).wf(),
        hs@.len() == old(desc).table().len(),
    ensures
        final(desc).wf(),
        final(desc).table().len() == old(desc).table().len(),
        forall|j: int|
            0 <= j < hs@.len() ==> (#[trigger] final(desc).table()[j]) == match hs@[j] {
                Some(h) => (
                    old(desc).table()[j].0,
                    FieldEntry { handle: h, meta: old(desc).table()[j].1.meta },
                ),
                None => old(desc).table()[j],
            },
{
    let n = hs.len();
    let mut i: usize = 0;
    while i < n
        invariant
            desc.wf(),
            n == hs@.len(),
            n == old(desc).table().len(),
            i <= n,
            desc.table().len() == n,
            forall|j: int|
                0 <= j < n ==> (#[trigger] desc.table()[j]) == if j < i {
                    match hs@[j] {
                        Some(h) => (
                            old(desc).table()[j].0,
                            FieldEntry { handle: h, meta: old(desc).table()[j].1.meta },
                        ),
                        None => old(desc).table()[j],
                    }
                } else {
                    old(desc).table()[j]
                },
        decreases n - i,
    {
        match hs[i] {
            Some(h) => {
                desc.set_handle_at(i, h);
            },
            None => {},
        }
        i = i + 1;
    }
}

/// Allocate sparse storage for `field` through the slab, keeping every
/// range the slab tracks inside the sparse pool; the handle returned lies
/// in the pool too. On failure nothing changes.
fn slab_alloc<T: Copy>(
    slab: &mut SparseSlab,
    sparse: &mut SegmentList<T>,
    field: FieldId,
    len: u32,
    generation: u32,
) -> (r: Result<FieldHandle, ArenaError>)
    requires
        old(slab).wf(),
        old(sparse).wf(),
        slab_ok(*old(slab), *old(sparse)),
    ensures
        final(slab).wf(),
        final(sparse).wf(),
        grows(*old(sparse), *final(sparse)),
        final(sparse).fill() == old(sparse).fill(),
        final(sparse).max_count() == old(sparse).max_count(),
        slab_ok(*final(slab), *final(sparse)),
        r is Err ==> *final(slab) == *old(slab) && *final(sparse) == *old(sparse),
        r is Ok ==> {
            let h = r->Ok_0;
            &&& h.generation == generation
            &&& h.len == len
            &&& h.location is Sparse
            &&& range_ok(*final(sparse), h.location->Sparse_segment_index, h.offset, h.len)
        },
        first_of_len(old(slab).retired(), len) is Some ==> final(sparse).segs() == old(sparse).segs(),
        old(slab).retired().len() == 0 ==> final(slab).retired().len() == 0,
        r is Err <==> first_of_len(old(slab).retired(), len) is None && alloc_fails(*old(sparse), len),
        old(slab).retired().len() == 0 && r is Ok ==> alloc_step(
            pool_state(*old(sparse)),
            len as nat,
            old(sparse).size(),
            old(sparse).max_count(),
        ) == Some(pool_state(*final(sparse))),
        r is Err ==> r->Err_0 is CapacityExceeded,
        old(slab).retired().len() == 0 && r is Ok ==> fresh_alloc(
            *old(sparse),
            *final(sparse),
            seg_of(r->Ok_0),
            r->Ok_0.offset as int,
            len as int,
        ),
{
    let ghost before_slab = *slab;
    let ghost before_sparse = *sparse;
    proof {
        if before_slab.retired().len() == 0 {
            assert(first_of_len(before_slab.retired(), len) is None);
        }
    }
    let r = slab.allocate(field, len, generation, sparse);
    proof {
        let rr = before_slab.retired();
        lemma_first_of_len(rr, len, 0);
        if let Some(p) = first_of_len(rr, len) {
            assert(range_ok(before_sparse, rr[p].segment_index, rr[p].offset, rr[p].len));
        }
        if r is Ok {
            assert forall|k: int| 0 <= k < slab.retired().len() implies range_ok(
                *sparse,
                (#[trigger] slab.retired()[k]).segment_index,
                slab.retired()[k].offset,
                slab.retired()[k].len,
            ) by {
                if let Some(p) = first_of_len(rr, len) {
                    if k == p && p < rr.len() - 1 {
                        assert(slab.retired()[k] == rr[rr.len() - 1]);
                    } else {
                        assert(slab.retired()[k] == rr[k]);
                    }
                }
            }
            assert forall|k: int| 0 <= k < slab.pending().len() implies range_ok(
                *sparse,
                (#[trigger] slab.pending()[k]).segment_index,
                slab.pending()[k].offset,
                slab.pending()[k].len,
            ) by {
                if k < before_slab.pending().len() {
                    assert(slab.pending()[k] == before_slab.pending()[k]);
                } else {
                    assert(before_slab.live_slot(field.0) is Some);
                }
            }
            assert forall|f: u32| #[trigger] slab.live_slot(f) is Some implies range_ok(
                *sparse,
                slab.live_slot(f)->Some_0.segment_index,
                slab.live_slot(f)->Some_0.offset,
                slab.live_slot(f)->Some_0.len,
            ) by {
                if f != field.0 {
                    assert(before_slab.live_slot(f) is Some);
                }
            }
        }
    }
    r
}

/// Give every sparse field of `desc` a generation-0 allocation in `sparse`
/// (through `slab`) and every static field its location in `statics`.
///
/// Fails with the allocation error, or with `UnknownField` for a static
/// field the static arena does not hold.
fn init_sparse_static<T: Copy>(
    desc: &mut FieldDescriptor,
    slab: &mut SparseSlab,
    sparse: &mut SegmentList<T>,
    statics: &StaticArena<T>,
) -> (r: Result<(), ArenaError>)
    requires
        old(desc).wf(),
        old(slab).wf(),
        old(sparse).wf(),
        statics.wf(),
        slab_ok(*old(slab), *old(sparse)),
        old(slab).retired().len() == 0,
        forall|j: int|
            0 <= j < old(desc).table().len() ==> (#[trigger] old(desc).table()[j]).1.handle.location
                is PerTick,
    ensures
        final(desc).wf(),
        final(slab).wf(),
        final(slab).retired().len() == 0,
        r is Ok <==> fill_class(
            pool_state(*old(sparse)),
            old(desc).table(),
            FieldMutability::Sparse,
            old(sparse).size(),
            old(sparse).max_count(),
        ) is Some && forall|j: int|
            0 <= j < old(desc).table().len() && (#[trigger] old(desc).table()[j]).1.meta.mutability
                == FieldMutability::Static ==> statics.location_of(old(desc).table()[j].0) is Some,
        r is Err && r->Err_0 is CapacityExceeded ==> fill_class(
            pool_state(*old(sparse)),
            old(desc).table(),
            FieldMutability::Sparse,
            old(sparse).size(),
            old(sparse).max_count(),
        ) is None,
        r is Err ==> exists|j: int|
            init_first_failure(
                pool_state(*old(sparse)),
                old(desc).table(),
                *statics,
                old(sparse).size(),
                old(sparse).max_count(),
                j,
            ) && (old(desc).table()[j].1.meta.mutability == FieldMutability::Static
                ==> r->Err_0 == ArenaError::UnknownField { field: FieldId(old(desc).table()[j].0) })
                && (old(desc).table()[j].1.meta.mutability == FieldMutability::Sparse
                ==> r->Err_0 is CapacityExceeded),
        r is Ok ==> forall|j: int|
            !#[trigger] init_fails_at(
                pool_state(*old(sparse)),
                old(desc).table(),
                *statics,
                old(sparse).size(),
                old(sparse).max_count(),
                j,
            ),
        r is Err ==> exists|j: int|
            0 <= j < old(desc).table().len() && {
                let (id, e) = #[trigger] old(desc).table()[j];
                ||| e.meta.mutability == FieldMutability::Sparse && alloc_fails(
                    *final(sparse),
                    e.meta.total_len,
                ) && r->Err_0 is CapacityExceeded
                ||| e.meta.mutability == FieldMutability::Static && statics.location_of(id) is None
                    && r->Err_0 == ArenaError::UnknownField { field: FieldId(id) }
            },
        r is Ok ==> sparse_in_use(final(desc).table(), *final(sparse), 0),
        r is Ok ==> sparse_apart(final(desc).table()),
        r is Ok ==> forall|j: int|
            0 <= j < final(desc).table().len() && (#[trigger] final(desc).table()[j]).1.handle.location
                is Sparse ==> final(sparse).segs()[seg_of(final(desc).table()[j].1.handle)].0.subrange(
                final(desc).table()[j].1.handle.offset as int,
                final(desc).table()[j].1.handle.offset + final(desc).table()[j].1.handle.len,
            ) == Seq::new(final(desc).table()[j].1.handle.len as nat, |x: int| old(sparse).fill()),
        final(sparse).wf(),
        grows(*old(sparse), *final(sparse)),
        final(sparse).fill() == old(sparse).fill(),
        final(sparse).max_count() == old(sparse).max_count(),
        slab_ok(*final(slab), *final(sparse)),
        final(desc).table().len() == old(desc).table().len(),
        r is Ok ==> forall|j: int|
            0 <= j < old(desc).table().len() ==> {
                let (id, e) = old(desc).table()[j];
                let (id2, e2) = #[trigger] final(desc).table()[j];
                &&& id2 == id
                &&& e2.meta == e.meta
                &&& e.meta.mutability == FieldMutability::PerTick ==> e2.handle == e.handle
                &&& e.meta.mutability != FieldMutability::PerTick ==> {
                    &&& handle_ok(e2.handle, *final(sparse), *final(sparse))
                    &&& location_matches(e2)
                    &&& e2.handle.generation == 0
                    &&& e.meta.mutability == FieldMutability::Sparse ==> e2.handle.len == e.meta.total_len
                }
                &&& e.meta.mutability == FieldMutability::Static ==> statics.location_of(id) is Some
                    && e2.handle.location == (FieldLocation::Static {
                    offset: statics.location_of(id)->Some_0.0 as u32,
                    len: statics.location_of(id)->Some_0.1 as u32,
                })
            },
{
    let n = desc.len();
    let mut i: usize = 0;
    while i < n
        invariant
            desc.wf(),
            slab.wf(),
            sparse.wf(),
            statics.wf(),
            n == old(desc).table().len(),
            desc.table().len() == n,
            i <= n,
            grows(*old(sparse), *sparse),
            sparse.fill() == old(sparse).fill(),
            sparse.max_count() == old(sparse).max_count(),
            slab_ok(*slab, *sparse),
            fill_class(
                pool_state(*old(sparse)),
                old(desc).table().subrange(0, i as int),
                FieldMutability::Sparse,
                old(sparse).size(),
                old(sparse).max_count(),
            ) == Some(pool_state(*sparse)),
            forall|j: int|
                0 <= j < i && (#[trigger] old(desc).table()[j]).1.meta.mutability
                    == FieldMutability::Static ==> statics.location_of(old(desc).table()[j].0) is Some,
            forall|k: int|
                0 <= k < i ==> !#[trigger] init_fails_at(
                    pool_state(*old(sparse)),
                    old(desc).table(),
                    *statics,
                    old(sparse).size(),
                    old(sparse).max_count(),
                    k,
                ),
            slab.retired().len() == 0,
            sparse_in_use(desc.table(), *sparse, 0),
            sparse_apart(desc.table()),
            forall|j: int|
                0 <= j < desc.table().len() && (#[trigger] desc.table()[j]).1.handle.location is Sparse
                    ==> sparse.segs()[seg_of(desc.table()[j].1.handle)].0.subrange(
                    desc.table()[j].1.handle.offset as int,
                    desc.table()[j].1.handle.offset + desc.table()[j].1.handle.len,
                ) == Seq::new(desc.table()[j].1.handle.len as nat, |x: int| old(sparse).fill()),
            forall|j: int|
                0 <= j < n ==> {
                    let (id, e) = old(desc).table()[j];
                    let (id2, e2) = #[trigger] desc.table()[j];
                    &&& id2 == id
                    &&& e2.meta == e.meta
                    &&& (j >= i || e.meta.mutability == FieldMutability::PerTick) ==> e2.handle
                        == e.handle
                    &&& j < i && e.meta.mutability != FieldMutability::PerTick ==> {
                        &&& handle_ok(e2.handle, *sparse, *sparse)
                        &&& location_matches(e2)
                        &&& e2.handle.generation == 0
                        &&& e.meta.mutability == FieldMutability::Sparse ==> e2.handle.len == e.meta.total_len
                    }
                    &&& j < i && e.meta.mutability == FieldMutability::Static ==> statics.location_of(id)
                        is Some && e2.handle.location == (FieldLocation::Static {
                        offset: statics.location_of(id)->Some_0.0 as u32,
                        len: statics.location_of(id)->Some_0.1 as u32,
                    })
                },
        decreases n - i,
    {
        let (id, entry) = desc.entry_at(i);
        let mutability = entry.meta.mutability;
        let total = entry.meta.total_len;
        let ghost before_sparse = *sparse;
        let ghost before_desc = desc.table();
        proof {
            assert(old(desc).table().subrange(0, i + 1).drop_last() =~= old(desc).table().subrange(
                0,
                i as int,
            ));
            assert(old(desc).table()[i as int].1.meta == desc.table()[i as int].1.meta);
        }
        if mutability == FieldMutability::Sparse {
            let handle = match slab_alloc(slab, sparse, id, total, 0) {
                Ok(h) => h,
                Err(e) => {
                    proof {
                        assert(old(desc).table()[i as int].1.meta.mutability == FieldMutability::Sparse);
                        assert(init_first_failure(
                            pool_state(*old(sparse)),
                            old(desc).table(),
                            *statics,
                            old(sparse).size(),
                            old(sparse).max_count(),
                            i as int,
                        ));
                        lemma_fill_prefix_none(
                            pool_state(*old(sparse)),
                            old(desc).table(),
                            i + 1,
                            FieldMutability::Sparse,
                            old(sparse).size(),
                            old(sparse).max_count(),
                        );
                    }
                    return Err(e);
                },
            };
            desc.set_handle_at(i, handle);
            proof {
                let t = desc.table();
                let seg = seg_of(handle);
                let off = handle.offset as int;
                assert forall|j: int| 0 <= j < t.len() && j != i && (#[trigger] t[j]).1.handle.location
                    is Sparse implies in_use(t[j].1.handle, *sparse) && (seg_of(t[j].1.handle) != seg
                    || t[j].1.handle.offset + t[j].1.handle.len <= off) && sparse.segs()[seg_of(
                    t[j].1.handle,
                )].0.subrange(
                    t[j].1.handle.offset as int,
                    t[j].1.handle.offset + t[j].1.handle.len,
                ) == Seq::new(t[j].1.handle.len as nat, |x: int| old(sparse).fill()) by {
                    assert(t[j] == before_desc[j]);
                    lemma_fresh_keeps(before_sparse, *sparse, seg, off, total as int, t[j].1.handle);
                }
                assert(sparse.segs()[seg].0.subrange(off, off + total) =~= Seq::new(
                    total as nat,
                    |x: int| old(sparse).fill(),
                ));
                assert(in_use(handle, *sparse));
                assert forall|j: int|
                    0 <= j < t.len() && (#[trigger] t[j]).1.handle.location is Sparse implies in_use(
                    t[j].1.handle,
                    *sparse,
                ) && t[j].1.handle.generation <= 0 by {
                    if j != i {
                        assert(t[j] == before_desc[j]);
                    }
                }
                assert forall|j: int, k: int|
                    0 <= j < t.len() && 0 <= k < t.len() && j != k && (#[trigger] t[j]).1.handle.location
                        is Sparse && (#[trigger] t[k]).1.handle.location is Sparse implies apart(
                    t[j].1.handle,
                    t[k].1.handle,
                ) by {
                    if j != i && k != i {
                        assert(t[j] == before_desc[j]);
                        assert(t[k] == before_desc[k]);
                    }
                }
            }
        } else if mutability == FieldMutability::Static {
            let (off, len) = match statics.field_location(id) {
                Some(loc) => loc,
                None => {
                    proof {
                        assert(old(desc).table()[i as int].1.meta.mutability == FieldMutability::Static);
                        assert(old(desc).table()[i as int].0 == id.0);
                        assert(init_first_failure(
                            pool_state(*old(sparse)),
                            old(desc).table(),
                            *statics,
                            old(sparse).size(),
                            old(sparse).max_count(),
                            i as int,
                        ));
                    }
                    return Err(ArenaError::UnknownField { field: id });
                },
            };
            desc.set_handle_at(
                i,
                FieldHandle::new(0, off, len, FieldLocation::Static { offset: off, len }),
            );
        }
        proof {
            assert forall|j: int| 0 <= j < n implies {
                let (id1, e) = old(desc).table()[j];
                let (id2, e2) = #[trigger] desc.table()[j];
                &&& id2 == id1
                &&& e2.meta == e.meta
                &&& (j >= i + 1 || e.meta.mutability == FieldMutability::PerTick) ==> e2.handle
                    == e.handle
                &&& j < i + 1 && e.meta.mutability != FieldMutability::PerTick ==> {
                    &&& handle_ok(e2.handle, *sparse, *sparse)
                    &&& location_matches(e2)
                    &&& e2.handle.generation == 0
                    &&& e.meta.mutability == FieldMutability::Sparse ==> e2.handle.len == e.meta.total_len
                }
                &&& j < i + 1 && e.meta.mutability == FieldMutability::Static ==> statics.location_of(id1)
                    is Some && e2.handle.location == (FieldLocation::Static {
                    offset: statics.location_of(id1)->Some_0.0 as u32,
                    len: statics.location_of(id1)->Some_0.1 as u32,
                })
            } by {
                if j < i && old(desc).table()[j].1.meta.mutability != FieldMutability::PerTick {
                    assert(handle_ok(before_desc[j].1.handle, before_sparse, before_sparse));
                }
            }
        }
        i = i + 1;
    }
    proof {
        assert(old(desc).table().subrange(0, n as int) =~= old(desc).table());
    }
    Ok(())
}

/// Double-buffered arena with ping-pong swap: two per-tick pools that
/// alternate roles, a dedicated sparse pool, a shared static arena, and two
/// field descriptors (staging and published) that are swapped on publish.
pub struct PingPongArena<T> {
    buffer_a: SegmentList<T>,
    buffer_b: SegmentList<T>,
    sparse_segments: SegmentList<T>,
    sparse_slab: SparseSlab,
    static_arena: Arc<StaticArena<T>>,
    staging_descriptor: FieldDescriptor,
    published_descriptor: FieldDescriptor,
    generation: u32,
    next_generation: u32,
    tick_in_progress: bool,
    b_is_staging: bool,
    scratch: ScratchRegion<T>,
    config: ArenaConfig,
    last_tick_id: TickId,
    last_param_version: ParameterVersion,
    field_defs: Vec<(FieldId, FieldDef)>,
    zero: T,
}

impl<T: Copy> PingPongArena<T> {
    /// Current (published) generation.
    pub closed spec fn generation_spec(&self) -> u32 {
        self.generation
    }

    /// Generation being staged by the tick in progress.
    pub closed spec fn next_generation_spec(&self) -> u32 {
        self.next_generation
    }

    /// Whether `begin_tick()` was called and `publish()` not yet.
    pub closed spec fn in_progress(&self) -> bool {
        self.tick_in_progress
    }

    /// Whether pool B is the staging pool.
    pub closed spec fn b_staging(&self) -> bool {
        self.b_is_staging
    }

    /// The published descriptor's table.
    pub closed spec fn published_table(&self) -> Seq<(u32, FieldEntry)> {
        self.published_descriptor.table()
    }

    /// The staging descriptor's table.
    pub closed spec fn staging_table(&self) -> Seq<(u32, FieldEntry)> {
        self.staging_descriptor.table()
    }

    /// The pool being written this tick.
    pub closed spec fn staging_pool(&self) -> SegmentList<T> {
        if self.b_is_staging {
            self.buffer_b
        } else {
            self.buffer_a
        }
    }

    /// The pool holding the published generation.
    pub closed spec fn published_pool(&self) -> SegmentList<T> {
        if self.b_is_staging {
            self.buffer_a
        } else {
            self.buffer_b
        }
    }

    /// The sparse pool.
    pub closed spec fn sparse_pool(&self) -> SegmentList<T> {
        self.sparse_segments
    }

    /// The sparse slab.
    pub closed spec fn slab(&self) -> SparseSlab {
        self.sparse_slab
    }

    /// The static arena.
    pub closed spec fn static_spec(&self) -> StaticArena<T> {
        *self.static_arena
    }

    /// Tick of the last publication.
    pub closed spec fn last_tick(&self) -> TickId {
        self.last_tick_id
    }

    /// Parameter version of the last publication.
    pub closed spec fn last_param(&self) -> ParameterVersion {
        self.last_param_version
    }

    /// The scratch region.
    pub closed spec fn scratch_spec(&self) -> ScratchRegion<T> {
        self.scratch
    }

    /// The configuration.
    pub closed spec fn config_spec(&self) -> ArenaConfig {
        self.config
    }

    /// The field definitions the arena was built from.
    pub closed spec fn defs(&self) -> Seq<(FieldId, FieldDef)> {
        self.field_defs@
    }

    /// The value fresh allocations hold.
    pub closed spec fn fill(&self) -> T {
        self.zero
    }

    /// Whether writing `len` values at `start` of field `f` succeeds: a tick
    /// is in progress, `f` is registered and the values fit in it, and it is
    /// per-tick, or sparse and either already copied this tick or the sparse
    /// pool (or a retired range of its length) has room for its copy.
    pub open spec fn write_succeeds(&self, f: u32, start: int, len: int) -> bool {
        let e = table_lookup(self.staging_table(), f)->Some_0;
        &&& self.in_progress()
        &&& table_lookup(self.staging_table(), f) is Some
        &&& start + len <= e.meta.total_len
        &&& e.meta.mutability == FieldMutability::PerTick || (e.meta.mutability
            == FieldMutability::Sparse && (e.handle.generation == self.next_generation_spec() || !(
        first_of_len(self.slab().retired(), e.meta.total_len) is None && alloc_fails(
            self.sparse_pool(),
            e.meta.total_len,
        ))))
    }

    /// The data field `f` holds in the staging generation, if registered.
    pub open spec fn staged_data(&self, f: u32) -> Option<Seq<T>> {
        data_of(self.staging_table(), f, self.staging_pool(), self.sparse_pool(), self.static_spec())
    }

    /// The data field `f` holds in the published generation, if registered.
    pub open spec fn published_data(&self, f: u32) -> Option<Seq<T>> {
        data_of(self.published_table(), f, self.published_pool(), self.sparse_pool(), self.static_spec())
    }

    /// The arena's invariant: every pool, descriptor and the slab is well
    /// formed; every published handle points inside the published pools;
    /// during a tick every staging handle points inside the staging pools,
    /// and outside a tick the staging table equals the published one. The
    /// slab never hands out reused ranges, both descriptors share the sparse
    /// pool soundly (see `sparse_sound`), and during a tick distinct
    /// per-tick staging ranges are apart.
    pub closed spec fn wf(&self) -> bool {
        &&& self.buffer_a.wf()
        &&& self.buffer_b.wf()
        &&& self.sparse_segments.wf()
        &&& self.sparse_slab.wf()
        &&& self.static_arena.wf()
        &&& self.staging_descriptor.wf()
        &&& self.published_descriptor.wf()
        &&& self.config.max_segments * self.config.segment_size <= usize::MAX
        &&& self.buffer_a.size() == self.config.segment_size
        &&& self.buffer_b.size() == self.config.segment_size
        &&& rebuild_fits(self.field_defs@, self.config, *self.static_arena)
        &&& metas_match(self.staging_table(), table_of(self.field_defs@, self.config.cell_count))
        &&& self.buffer_a.max_count() == segment_cap(self.config.max_segments / 3)
        &&& self.buffer_b.max_count() == segment_cap(self.config.max_segments / 3)
        &&& self.sparse_segments.size() == self.config.segment_size
        &&& self.buffer_a.fill() == self.zero
        &&& self.buffer_b.fill() == self.zero
        &&& self.sparse_segments.fill() == self.zero
        &&& table_ok(self.published_table(), self.published_pool(), self.sparse_segments)
        &&& self.tick_in_progress ==> table_ok(
            self.staging_table(),
            self.staging_pool(),
            self.sparse_segments,
        )
        &&& self.tick_in_progress ==> self.next_generation == self.generation + 1
        &&& !self.tick_in_progress ==> self.staging_table() == self.published_table()
        &&& slab_ok(self.sparse_slab, self.sparse_segments)
        &&& self.sparse_slab.retired().len() == 0
        &&& sparse_sound(
            self.staging_table(),
            self.published_table(),
            self.sparse_segments,
            if self.tick_in_progress {
                self.next_generation
            } else {
                self.generation
            },
            self.generation,
        )
        &&& self.tick_in_progress ==> per_tick_apart(self.staging_table())
    }

    /// Create a new ping-pong arena.
    ///
    /// `segment_size` must be a power of two and at least 1024, and
    /// `max_segments` at least 3 (one segment per pool), else
    /// `InvalidConfig`; a field length overflowing `u32` is `InvalidConfig`
    /// too. The pools share `max_segments`: each per-tick pool gets a third
    /// (rounded down), the sparse pool the rest. Every sparse field gets a
    /// generation-0 allocation, every static field its location in
    /// `static_arena` (`UnknownField` if missing), and every per-tick field
    /// an allocation in both per-tick pools, so that the published
    /// generation 0 reads as all-`zero` data.
    pub fn new(
        config: ArenaConfig,
        field_defs: Vec<(FieldId, FieldDef)>,
        static_arena: Arc<StaticArena<T>>,
        zero: T,
    ) -> (r: Result<Self, ArenaError>)
        requires
            static_arena.wf(),
            config.max_segments * config.segment_size <= usize::MAX,
            config.cell_count * 4 <= usize::MAX,
        ensures
            !is_power_of_two(config.segment_size) || config.segment_size < 1024 ==> r is Err
                && r->Err_0 is InvalidConfig,
            is_power_of_two(config.segment_size) && config.segment_size >= 1024
                && config.max_segments < 3 ==> r is Err && r->Err_0 is InvalidConfig,
            is_power_of_two(config.segment_size) && config.segment_size >= 1024
                && config.max_segments >= 3 && any_len_overflows(field_defs@, config.cell_count)
                ==> r is Err && r->Err_0 is InvalidConfig,
            r is Ok <==> is_power_of_two(config.segment_size) && config.segment_size >= 1024
                && config.max_segments >= 3 && rebuild_fits(field_defs@, config, *static_arena),
            r is Err && is_power_of_two(config.segment_size) && config.segment_size >= 1024
                && config.max_segments >= 3 && !any_len_overflows(field_defs@, config.cell_count)
                ==> new_error(field_defs@, config, *static_arena, r->Err_0),
            r is Ok ==> {
                let a = r->Ok_0;
                &&& a.wf()
                &&& a.generation_spec() == 0
                &&& !a.in_progress()
                &&& !a.b_staging()
                &&& a.last_tick() == TickId(0)
                &&& a.last_param() == ParameterVersion(0)
                &&& a.config_spec() == config
                &&& a.static_spec() == *static_arena
                &&& a.fill() == zero
                &&& a.defs() == field_defs@
                &&& a.staging_table() == a.published_table()
                &&& forall|g: u32|
                    #[trigger] a.published_data(g) == match table_lookup(a.published_table(), g) {
                        Some(e) => if e.meta.mutability == FieldMutability::Static {
                            static_arena.field_data(g)
                        } else {
                            Some(Seq::new(e.meta.total_len as nat, |i: int| zero))
                        },
                        None => None,
                    }
                &&& a.published_table().len() == table_of(field_defs@, config.cell_count).len()
                &&& forall|j: int|
                    0 <= j < a.published_table().len() ==> {
                        let (id, e) = table_of(field_defs@, config.cell_count)[j];
                        let (id2, e2) = #[trigger] a.published_table()[j];
                        &&& id2 == id
                        &&& e2.meta == e.meta
                        &&& e2.handle.generation == 0
                        &&& e2.handle.len == e.meta.total_len || e.meta.mutability
                            == FieldMutability::Static
                    }
            },
    {
        if !power_of_two(config.segment_size) || config.segment_size < 1024 {
            return Err(ArenaError::InvalidConfig { reason: segment_size_reason(config.segment_size) });
        }
        if config.max_segments < 3 {
            return Err(ArenaError::InvalidConfig { reason: max_segments_reason(config.max_segments) });
        }
        let descriptor = match FieldDescriptor::from_field_defs(field_defs.as_slice(), config.cell_count) {
            Ok(d) => d,
            Err(e) => {
                return Err(e);
            },
        };
        let per_tick_max = config.max_segments / 3;
        let sparse_max = config.max_segments - 2 * per_tick_max;
        proof {
            assert(sparse_max * config.segment_size <= config.max_segments * config.segment_size) by (nonlinear_arith)
                requires
                    sparse_max <= config.max_segments,
            ;
            assert(per_tick_max * config.segment_size <= config.max_segments * config.segment_size) by (nonlinear_arith)
                requires
                    per_tick_max <= config.max_segments,
            ;
        }
        let mut sparse_segments = SegmentList::new(config.segment_size, sparse_max, zero);
        let ghost fresh_sparse = sparse_segments;
        let mut sparse_slab = SparseSlab::new();
        let mut staging_descriptor = descriptor.clone();
        let ghost t0 = staging_descriptor.table();
        proof {
            assert forall|j: int| 0 <= j < staging_descriptor.table().len() implies (#[trigger] staging_descriptor.table()[j]).1.handle.location is PerTick by {
                lemma_table_of_entries(field_defs@, config.cell_count, j);
            }
        }
        match init_sparse_static(
            &mut staging_descriptor,
            &mut sparse_slab,
            &mut sparse_segments,
            &*static_arena,
        ) {
            Ok(()) => {},
            Err(e) => {
                proof {
                    assert(pool_state(fresh_sparse) == (0nat, 0nat, 1nat));
                    assert(!rebuild_fits(field_defs@, config, *static_arena));
                    if e is UnknownField {
                        let j = choose|j: int|
                            0 <= j < t0.len() && {
                                let (id, en) = #[trigger] t0[j];
                                ||| en.meta.mutability == FieldMutability::Sparse && alloc_fails(
                                    sparse_segments,
                                    en.meta.total_len,
                                ) && e is CapacityExceeded
                                ||| en.meta.mutability == FieldMutability::Static
                                    && static_arena.location_of(id) is None
                                    && e == ArenaError::UnknownField { field: FieldId(id) }
                            };
                        assert(t0[j].1.meta.mutability == FieldMutability::Static);
                    }
                    assert(new_error(field_defs@, config, *static_arena, e));
                }
                return Err(e);
            },
        }
        let ghost t1 = staging_descriptor.table();
        let mut buffer_a = SegmentList::new(config.segment_size, per_tick_max, zero);
        let mut buffer_b = SegmentList::new(config.segment_size, per_tick_max, zero);
        let ghost fresh_a = buffer_a;
        let ghost fresh_b = buffer_b;
        let hs = match alloc_per_tick(&mut buffer_b, &staging_descriptor, 0) {
            Ok(hs) => hs,
            Err(e) => {
                proof {
                    assert(pool_state(fresh_b) == (0nat, 0nat, 1nat));
                    lemma_fill_same_meta(pool_state(fresh_b), t1, t0, FieldMutability::PerTick, fresh_b.size(), fresh_b.max_count());
                    assert(!rebuild_fits(field_defs@, config, *static_arena));
                    assert(new_error(field_defs@, config, *static_arena, e));
                }
                return Err(e);
            },
        };
        let ghost before = staging_descriptor.table();
        apply_handles(&mut staging_descriptor, &hs);
        let ghost t2 = staging_descriptor.table();
        match alloc_per_tick(&mut buffer_a, &staging_descriptor, 0) {
            Ok(_) => {},
            Err(e) => {
                proof {
                    assert(pool_state(fresh_b) == (0nat, 0nat, 1nat));
                    assert(pool_state(fresh_a) == (0nat, 0nat, 1nat));
                    lemma_fill_same_meta(pool_state(fresh_b), t1, t0, FieldMutability::PerTick, fresh_b.size(), fresh_b.max_count());
                    lemma_fill_same_meta(pool_state(fresh_a), t2, t0, FieldMutability::PerTick, fresh_a.size(), fresh_a.max_count());
                }
                return Err(e);
            },
        }
        let published_descriptor = staging_descriptor.clone();
        let scratch = ScratchRegion::new(config.cell_count as usize * 4, zero);
        let a = PingPongArena {
            buffer_a,
            buffer_b,
            sparse_segments,
            sparse_slab,
            static_arena,
            staging_descriptor,
            published_descriptor,
            generation: 0,
            next_generation: 0,
            tick_in_progress: false,
            b_is_staging: false,
            scratch,
            config,
            last_tick_id: TickId(0),
            last_param_version: ParameterVersion(0),
            field_defs,
            zero,
        };
        proof {
            let t = a.published_table();
            assert forall|j: int| 0 <= j < t.len() implies handle_ok((#[trigger] t[j]).1.handle, a.buffer_b, a.sparse_segments)
                && location_matches(t[j].1) by {
                if hs@[j] is None {
                    assert(handle_ok(before[j].1.handle, a.sparse_segments, a.sparse_segments));
                }
            }
            assert forall|j: int| 0 <= j < t.len() implies {
                let (id, e) = table_of(a.field_defs@, config.cell_count)[j];
                let (id2, e2) = #[trigger] t[j];
                &&& id2 == id
                &&& e2.meta == e.meta
                &&& e2.handle.generation == 0
                &&& e2.handle.len == e.meta.total_len || e.meta.mutability == FieldMutability::Static
            } by {
                assert(descriptor.table()[j].1.handle.len == descriptor.table()[j].1.meta.total_len) by {
                    lemma_table_of_entries(field_defs@, config.cell_count, j);
                }
            }
            a.lemma_initial_data(before, hs@);
            assert(pool_state(fresh_b) == (0nat, 0nat, 1nat));
            assert(pool_state(fresh_sparse) == (0nat, 0nat, 1nat));
            lemma_fill_same_meta(pool_state(fresh_b), t1, t0, FieldMutability::PerTick, fresh_b.size(), fresh_b.max_count());
            assert(rebuild_fits(field_defs@, config, *static_arena));
        }
        Ok(a)
    }


    /// Publish the staging generation: the staging descriptor becomes the
    /// published one (and a copy of it the next staging descriptor), the
    /// staging pool becomes the published pool, and the generation advances
    /// to the one `begin_tick()` computed.
    ///
    /// Fails with `InvalidConfig`, changing nothing, when no tick is in progress.
    pub fn publish(&mut self, tick_id: TickId, param_version: ParameterVersion) -> (r: Result<
        (),
        ArenaError,
    >)
        requires
            old(self).wf(),
        ensures
            final(self).wf(),
            r is Err <==> !old(self).in_progress(),
            r is Err ==> r->Err_0 is InvalidConfig && *final(self) == *old(self),
            r is Ok ==> {
                &&& final(self).generation_spec() == old(self).next_generation_spec()
                &&& !final(self).in_progress()
                &&& final(self).published_table() == old(self).staging_table()
                &&& final(self).staging_table() == old(self).staging_table()
                &&& final(self).b_staging() == !old(self).b_staging()
                &&& final(self).published_pool() == old(self).staging_pool()
                &&& forall|f: u32| #[trigger] final(self).published_data(f) == old(self).staged_data(f)
                &&& final(self).staging_pool() == old(self).published_pool()
                &&& final(self).sparse_pool() == old(self).sparse_pool()
                &&& final(self).static_spec() == old(self).static_spec()
                &&& final(self).last_tick() == tick_id
                &&& final(self).last_param() == param_version
                &&& final(self).config_spec() == old(self).config_spec()
                &&& final(self).fill() == old(self).fill()
            },
    {
        if !self.tick_in_progress {
            return Err(ArenaError::InvalidConfig { reason: publish_without_tick_reason() });
        }
        self.generation = self.next_generation;
        self.tick_in_progress = false;
        std::mem::swap(&mut self.staging_descriptor, &mut self.published_descriptor);
        self.staging_descriptor = self.published_descriptor.clone();
        self.b_is_staging = !self.b_is_staging;
        self.last_tick_id = tick_id;
        self.last_param_version = param_version;
        Ok(())
    }

    /// Begin a new tick: reset the staging pool and pre-allocate every
    /// per-tick field in it, with handles of the next generation. Every
    /// per-tick field then stages the fill value over its length; every
    /// other field stages what it staged before. The scratch region is
    /// emptied (nothing allocated in it, its storage kept).
    ///
    /// Fails with `InvalidConfig`, changing nothing, exactly when the
    /// generation counter is at its maximum: the per-tick fields always fit
    /// the staging pool, as the arena's definitions were checked to fit when
    /// it was built.
    #[verifier::rlimit(40)]
    pub fn begin_tick(&mut self) -> (r: Result<(), ArenaError>)
        requires
            old(self).wf(),
        ensures
            final(self).wf(),
            old(self).generation_spec() == u32::MAX ==> r is Err && r->Err_0 is InvalidConfig
                && *final(self) == *old(self),
            old(self).generation_spec() < u32::MAX ==> r is Ok,
            r is Ok ==> final(self).scratch_spec().used_spec() == 0,
            r is Ok ==> final(self).scratch_spec().contents() == old(self).scratch_spec().contents(),
            r is Ok ==> final(self).scratch_spec().fill() == old(self).scratch_spec().fill(),
            final(self).generation_spec() == old(self).generation_spec(),
            final(self).published_table() == old(self).published_table(),
            final(self).published_pool() == old(self).published_pool(),
            final(self).b_staging() == old(self).b_staging(),
            final(self).sparse_pool() == old(self).sparse_pool(),
            final(self).slab() == old(self).slab(),
            final(self).static_spec() == old(self).static_spec(),
            final(self).last_tick() == old(self).last_tick(),
            final(self).last_param() == old(self).last_param(),
            final(self).config_spec() == old(self).config_spec(),
            final(self).fill() == old(self).fill(),
            r is Err ==> {
                &&& final(self).in_progress() == old(self).in_progress()
                &&& final(self).staging_table() == old(self).staging_table()
                &&& final(self).next_generation_spec() == old(self).next_generation_spec()
            },
            r is Ok ==> forall|g: u32|
                #[trigger] final(self).staged_data(g) == match table_lookup(old(self).staging_table(), g) {
                    Some(e) => if e.meta.mutability == FieldMutability::PerTick {
                        Some(Seq::new(e.meta.total_len as nat, |i: int| old(self).fill()))
                    } else {
                        old(self).staged_data(g)
                    },
                    None => None,
                },
            r is Ok ==> {
                &&& final(self).in_progress()
                &&& final(self).next_generation_spec() == old(self).generation_spec() + 1
                &&& final(self).staging_table().len() == old(self).staging_table().len()
                &&& forall|j: int|
                    0 <= j < old(self).staging_table().len() ==> {
                        let (id, e) = old(self).staging_table()[j];
                        let (id2, e2) = #[trigger] final(self).staging_table()[j];
                        &&& id2 == id
                        &&& e2.meta == e.meta
                        &&& e.meta.mutability == FieldMutability::PerTick ==> {
                            &&& e2.handle.generation == old(self).generation_spec() + 1
                            &&& e2.handle.len == e.meta.total_len
                            &&& e2.handle.location is PerTick
                        }
                        &&& e.meta.mutability != FieldMutability::PerTick ==> e2.handle == e.handle
                    }
            },
    {
        let next_gen = match self.generation.checked_add(1) {
            Some(g) => g,
            None => {
                return Err(ArenaError::InvalidConfig { reason: generation_overflow_reason() });
            },
        };
        let ghost old_staging = self.staging_table();
        if self.b_is_staging {
            self.buffer_b.reset();
        } else {
            self.buffer_a.reset();
        }
        let ghost reset_pool = self.staging_pool();
        let res = if self.b_is_staging {
            alloc_per_tick(&mut self.buffer_b, &self.staging_descriptor, next_gen)
        } else {
            alloc_per_tick(&mut self.buffer_a, &self.staging_descriptor, next_gen)
        };
        let hs = match res {
            Ok(hs) => hs,
            Err(e) => {
                proof {
                    let t0 = table_of(self.field_defs@, self.config.cell_count);
                    lemma_fill_same_meta(
                        pool_state(reset_pool),
                        self.staging_table(),
                        t0,
                        FieldMutability::PerTick,
                        reset_pool.size(),
                        reset_pool.max_count(),
                    );
                    lemma_fill_count(
                        0,
                        0,
                        reset_pool.segs().len(),
                        1,
                        t0,
                        FieldMutability::PerTick,
                        reset_pool.size(),
                        reset_pool.max_count(),
                    );
                    assert(false);
                }
                return Err(e);
            },
        };
        apply_handles(&mut self.staging_descriptor, &hs);
        self.scratch.reset();
        self.tick_in_progress = true;
        self.next_generation = next_gen;
        proof {
            let t = self.staging_table();
            assert forall|j: int| 0 <= j < t.len() implies handle_ok((#[trigger] t[j]).1.handle, self.staging_pool(), self.sparse_segments)
                && location_matches(t[j].1) by {
                if hs@[j] is None {
                    if old(self).tick_in_progress {
                        assert(handle_ok(old_staging[j].1.handle, old(self).staging_pool(), self.sparse_segments));
                    } else {
                        assert(old_staging[j] == old(self).published_table()[j]);
                        assert(handle_ok(old_staging[j].1.handle, old(self).published_pool(), self.sparse_segments));
                    }
                }
            }
            old(self).staging_descriptor.lemma_ids_distinct();
            assert forall|j: int| 0 <= j < t.len() implies #[trigger] t[j].0 == old_staging[j].0 by {}
            assert forall|g: u32|
                #[trigger] self.staged_data(g) == match table_lookup(old_staging, g) {
                    Some(e) => if e.meta.mutability == FieldMutability::PerTick {
                        Some(Seq::new(e.meta.total_len as nat, |i: int| old(self).fill()))
                    } else {
                        old(self).staged_data(g)
                    },
                    None => None,
                } by {
                lemma_same_positions(old_staging, t, g);
                if let Some(pg) = crate::arena::descriptor::table_position(old_staging, g) {
                    assert(old_staging[pg].0 == g);
                    if hs@[pg] is Some {
                        let h = hs@[pg]->Some_0;
                        assert(t[pg].1.handle == h);
                        assert(seg_of(h) == h.location->PerTick_segment_index);
                    } else {
                        assert(t[pg] == old_staging[pg]);
                        assert(old_staging[pg].1.handle.location !is PerTick) by {
                            if old(self).tick_in_progress {
                                assert(location_matches(old_staging[pg].1));
                            } else {
                                assert(old_staging[pg] == old(self).published_table()[pg]);
                                assert(location_matches(old(self).published_table()[pg].1));
                            }
                        }
                    }
                }
            }
        }
        Ok(())
    }

    /// Write `values` into field `field` of the staging generation, starting
    /// at element `start`.
    ///
    /// A per-tick field is written in place. A sparse field not yet written
    /// this tick is first copied to a fresh allocation (copy-on-write), which
    /// then becomes its staging handle. Returns `false`, changing nothing,
    /// outside a tick, for an unknown or static field, when the values do
    /// not fit in the field, or when the copy cannot be allocated. No other
    /// field's staged data and no published data changes.
    pub fn write_field(&mut self, field: FieldId, start: u32, values: &[T]) -> (ok: bool)
        requires
            old(self).wf(),
        ensures
            final(self).wf(),
            final(self).generation_spec() == old(self).generation_spec(),
            final(self).next_generation_spec() == old(self).next_generation_spec(),
            final(self).in_progress() == old(self).in_progress(),
            final(self).b_staging() == old(self).b_staging(),
            final(self).published_table() == old(self).published_table(),
            final(self).published_pool() == old(self).published_pool(),
            final(self).static_spec() == old(self).static_spec(),
            final(self).last_tick() == old(self).last_tick(),
            final(self).last_param() == old(self).last_param(),
            final(self).config_spec() == old(self).config_spec(),
            final(self).fill() == old(self).fill(),
            !ok ==> *final(self) == *old(self),
            forall|g: u32| #[trigger] final(self).published_data(g) == old(self).published_data(g),
            forall|g: u32|
                g != field.0 ==> #[trigger] final(self).staged_data(g) == old(self).staged_data(g),
            ok ==> {
                let e = table_lookup(old(self).staging_table(), field.0)->Some_0;
                &&& old(self).in_progress()
                &&& table_lookup(old(self).staging_table(), field.0) is Some
                &&& e.meta.mutability != FieldMutability::Static
                &&& start + values@.len() <= e.meta.total_len
                &&& old(self).staged_data(field.0)->Some_0.len() == e.meta.total_len
                &&& final(self).staged_data(field.0) == Some(
                    splice(old(self).staged_data(field.0)->Some_0, start as int, values@),
                )
            },
            ok <==> old(self).write_succeeds(field.0, start as int, values@.len() as int),
    {
        if !self.tick_in_progress {
            return false;
        }
        proof {
            self.staging_descriptor.lemma_lookup_is_table_lookup(field.0);
        }
        let (mutability, total, handle) = match self.staging_descriptor.get(field) {
            Some(e) => (e.meta.mutability, e.meta.total_len, e.handle),
            None => {
                return false;
            },
        };
        let n = values.len();
        if start > total || n > (total - start) as usize {
            return false;
        }
        let ghost t = self.staging_table();
        let ghost pos = crate::arena::descriptor::table_position(t, field.0)->Some_0;
        proof {
            assert(handle_ok(t[pos].1.handle, self.staging_pool(), self.sparse_segments));
            assert(location_matches(t[pos].1));
        }
        match mutability {
            FieldMutability::Static => false,
            FieldMutability::PerTick => {
                let seg = match handle.location {
                    FieldLocation::PerTick { segment_index } => segment_index,
                    _ => {
                        return false;
                    },
                };
                let ghost before = self.staging_pool();
                if self.b_is_staging {
                    self.buffer_b.write(seg, handle.offset + start, values);
                } else {
                    self.buffer_a.write(seg, handle.offset + start, values);
                }
                proof {
                    lemma_splice_window(
                        before.segs()[seg as int].0,
                        handle.offset as int,
                        total as int,
                        start as int,
                        values@,
                    );
                    assert(self.staged_data(field.0) == Some(
                        splice(old(self).staged_data(field.0)->Some_0, start as int, values@),
                    ));
                    let lo = handle.offset + start;
                    lemma_write_same_outside(before, self.staging_pool(), seg as int, lo, values@);
                    self.staging_descriptor.lemma_ids_distinct();
                    lemma_frame_per_tick(
                        t,
                        pos,
                        before,
                        self.staging_pool(),
                        self.sparse_segments,
                        self.static_spec(),
                        lo,
                        lo + values@.len(),
                    );
                }
                true
            },
            FieldMutability::Sparse => {
                let seg = match handle.location {
                    FieldLocation::Sparse { segment_index } => segment_index,
                    _ => {
                        return false;
                    },
                };
                if handle.generation == self.next_generation {
                    let ghost before = self.sparse_segments;
                    self.sparse_segments.write(seg, handle.offset + start, values);
                    proof {
                        lemma_splice_window(
                            before.segs()[seg as int].0,
                            handle.offset as int,
                            total as int,
                            start as int,
                            values@,
                        );
                        lemma_table_ok_grows(
                            self.published_table(),
                            self.published_pool(),
                            before,
                            self.published_pool(),
                            self.sparse_segments,
                        );
                        lemma_table_ok_grows(
                            self.staging_table(),
                            self.staging_pool(),
                            before,
                            self.staging_pool(),
                            self.sparse_segments,
                        );
                        let lo = handle.offset + start;
                        lemma_write_same_outside(before, self.sparse_segments, seg as int, lo, values@);
                        self.staging_descriptor.lemma_ids_distinct();
                        lemma_frame_sparse(
                            t,
                            pos,
                            self.staging_pool(),
                            before,
                            self.sparse_segments,
                            self.static_spec(),
                            lo,
                            lo + values@.len(),
                        );
                    }
                    true
                } else {
                    let old_data = vstd::slice::slice_to_vec(
                        self.sparse_segments.slice(seg, handle.offset, handle.len),
                    );
                    let ghost before_sparse = self.sparse_segments;
                    let new_h = match slab_alloc(
                        &mut self.sparse_slab,
                        &mut self.sparse_segments,
                        field,
                        total,
                        self.next_generation,
                    ) {
                        Ok(h) => h,
                        Err(_) => {
                            return false;
                        },
                    };
                    let new_seg = match new_h.location {
                        FieldLocation::Sparse { segment_index } => segment_index,
                        _ => {
                            proof {
                                assert(false);
                            }
                            return false;
                        },
                    };
                    let ghost after_alloc = self.sparse_segments;
                    let ghost c1 = self.sparse_segments.segs()[new_seg as int].0;
                    self.sparse_segments.write(new_seg, new_h.offset, old_data.as_slice());
                    let ghost c2 = self.sparse_segments.segs()[new_seg as int].0;
                    let ghost mid = self.sparse_segments;
                    self.sparse_segments.write(new_seg, new_h.offset + start, values);
                    proof {
                        lemma_splice_window(c1, new_h.offset as int, total as int, 0, old_data@);
                        assert(splice(c1.subrange(new_h.offset as int, new_h.offset + total), 0, old_data@)
                            =~= old_data@);
                        lemma_splice_window(c2, new_h.offset as int, total as int, start as int, values@);
                        let no = new_h.offset as int;
                        lemma_fresh_keeps_used(before_sparse, after_alloc, new_seg as int, no, total as int);
                        lemma_write_same_outside(after_alloc, mid, new_seg as int, no, old_data@);
                        lemma_keeps_used_outside(
                            before_sparse,
                            after_alloc,
                            mid,
                            new_seg as int,
                            no,
                            no + old_data@.len(),
                        );
                        lemma_write_same_outside(mid, self.sparse_segments, new_seg as int, no + start, values@);
                        lemma_keeps_used_outside(
                            before_sparse,
                            mid,
                            self.sparse_segments,
                            new_seg as int,
                            no + start,
                            no + start + values@.len(),
                        );
                        lemma_table_ok_grows(
                            self.published_table(),
                            self.published_pool(),
                            before_sparse,
                            self.published_pool(),
                            self.sparse_segments,
                        );
                        lemma_table_ok_grows(
                            self.staging_table(),
                            self.staging_pool(),
                            before_sparse,
                            self.staging_pool(),
                            self.sparse_segments,
                        );
                    }
                    self.staging_descriptor.update_handle(field, new_h);
                    proof {
                        let t2 = self.staging_table();
                        self.staging_descriptor.lemma_ids_distinct();
                        assert(t2[pos].0 == field.0);
                        crate::arena::descriptor::lemma_table_position_unique(t2, field.0, pos);
                        assert(table_lookup(t2, field.0)->Some_0.handle == new_h);
                        assert(old(self).staged_data(field.0)->Some_0 == old_data@);
                        assert(self.staged_data(field.0)->Some_0 == splice(old_data@, start as int, values@));
                        old(self).staging_descriptor.lemma_ids_distinct();
                        lemma_frame_fresh(
                            t,
                            t2,
                            pos,
                            self.staging_pool(),
                            before_sparse,
                            self.sparse_segments,
                            self.static_spec(),
                            self.next_generation,
                        );
                    }
                    true
                }
            },
        }
    }

    /// Read field `field` of the staging generation; `None` outside a tick,
    /// for an unknown field, or for a static field (read those from the
    /// static arena).
    pub fn read_staged(&self, field: FieldId) -> (r: Option<&[T]>)
        requires
            self.wf(),
        ensures
            match r {
                Some(s) => {
                    &&& self.in_progress()
                    &&& table_lookup(self.staging_table(), field.0) is Some
                    &&& table_lookup(self.staging_table(), field.0)->Some_0.meta.mutability
                        != FieldMutability::Static
                    &&& self.staged_data(field.0) == Some(s@)
                },
                None => !self.in_progress() || table_lookup(self.staging_table(), field.0) is None
                    || table_lookup(self.staging_table(), field.0)->Some_0.meta.mutability
                    == FieldMutability::Static,
            },
    {
        if !self.tick_in_progress {
            return None;
        }
        proof {
            self.staging_descriptor.lemma_lookup_is_table_lookup(field.0);
        }
        let handle = match self.staging_descriptor.get(field) {
            Some(e) => e.handle,
            None => {
                return None;
            },
        };
        let ghost t = self.staging_table();
        let ghost pos = crate::arena::descriptor::table_position(t, field.0)->Some_0;
        proof {
            assert(handle_ok(t[pos].1.handle, self.staging_pool(), self.sparse_segments));
            assert(location_matches(t[pos].1));
        }
        match handle.location {
            FieldLocation::PerTick { segment_index } => {
                if self.b_is_staging {
                    Some(self.buffer_b.slice(segment_index, handle.offset, handle.len))
                } else {
                    Some(self.buffer_a.slice(segment_index, handle.offset, handle.len))
                }
            },
            FieldLocation::Sparse { segment_index } => {
                Some(self.sparse_segments.slice(segment_index, handle.offset, handle.len))
            },
            FieldLocation::Static { .. } => None,
        }
    }


    /// A read-only view of the published generation.
    pub fn snapshot(&self) -> (s: Snapshot<'_, T>)
        requires
            self.wf(),
        ensures
            s.wf(),
            forall|f: u32| #[trigger] s.data(f) == self.published_data(f),
            s.tick_spec() == self.last_tick(),
            s.generation_spec() == WorldGenerationId(self.generation_spec() as u64),
            s.param_spec() == self.last_param(),
    {
        let per_tick = if self.b_is_staging {
            &self.buffer_a
        } else {
            &self.buffer_b
        };
        Snapshot {
            per_tick_segments: per_tick,
            sparse_segments: &self.sparse_segments,
            static_arena: &*self.static_arena,
            descriptor: &self.published_descriptor,
            tick_id: self.last_tick_id,
            world_generation_id: WorldGenerationId(self.generation as u64),
            parameter_version: self.last_param_version,
        }
    }

    /// An owned, thread-safe copy of the published generation: it holds
    /// copies of the published and sparse pools and of the descriptor, and
    /// shares the static arena.
    pub fn owned_snapshot(&self) -> (s: OwnedSnapshot<T>)
        requires
            self.wf(),
        ensures
            s.wf(),
            forall|f: u32| #[trigger] s.data(f) == self.published_data(f),
            s.tick_spec() == self.last_tick(),
            s.generation_spec() == WorldGenerationId(self.generation_spec() as u64),
            s.param_spec() == self.last_param(),
    {
        let per_tick = if self.b_is_staging {
            self.buffer_a.clone()
        } else {
            self.buffer_b.clone()
        };
        OwnedSnapshot {
            per_tick_segments: per_tick,
            sparse_segments: self.sparse_segments.clone(),
            static_arena: arc_clone(&self.static_arena),
            descriptor: self.published_descriptor.clone(),
            tick_id: self.last_tick_id,
            world_generation_id: WorldGenerationId(self.generation as u64),
            parameter_version: self.last_param_version,
        }
    }

    /// The scratch region, for temporary allocations.
    pub fn scratch(&mut self) -> (s: &mut ScratchRegion<T>)
        requires
            old(self).wf(),
        ensures
            *s == old(self).scratch_spec(),
            final(self).scratch_spec() == *final(s),
            final(self).wf(),
            final(self).generation_spec() == old(self).generation_spec(),
            final(self).in_progress() == old(self).in_progress(),
            final(self).staging_table() == old(self).staging_table(),
            final(self).published_table() == old(self).published_table(),
            final(self).staging_pool() == old(self).staging_pool(),
            final(self).published_pool() == old(self).published_pool(),
            final(self).sparse_pool() == old(self).sparse_pool(),
    {
        &mut self.scratch
    }

    /// Total memory of all pools, the static arena and the scratch region,
    /// in bytes (saturating).
    pub fn memory_bytes(&self) -> (n: usize)
        requires
            self.wf(),
        ensures
            n == sat_add(
                sat_add(
                    sat_add(
                        sat_add(
                            bytes_of::<T>(self.staging_pool().segs().len() * self.staging_pool().size()),
                            bytes_of::<T>(self.published_pool().segs().len() * self.published_pool().size()),
                        ),
                        bytes_of::<T>(self.sparse_pool().segs().len() * self.sparse_pool().size()),
                    ),
                    bytes_of::<T>(self.static_spec().contents().len()),
                ),
                bytes_of::<T>(self.scratch_spec().contents().len()),
            ),
    {
        let (first, second) = if self.b_is_staging {
            (self.buffer_b.memory_bytes(), self.buffer_a.memory_bytes())
        } else {
            (self.buffer_a.memory_bytes(), self.buffer_b.memory_bytes())
        };
        first.saturating_add(second).saturating_add(
            self.sparse_segments.memory_bytes(),
        ).saturating_add(self.static_arena.memory_bytes()).saturating_add(
            self.scratch.memory_bytes(),
        )
    }


    /// Reset the arena to its initial state: both per-tick pools reset,
    /// a fresh sparse pool and slab, descriptors rebuilt from the field
    /// definitions with the same initial allocations as `new`, and the
    /// generation back to 0. The static arena is untouched.
    ///
    /// Always succeeds: the arena's definitions were checked to fit
    /// (`rebuild_fits`) when it was built, and rebuilding them fails on
    /// nothing else.
    pub fn reset(&mut self) -> (r: Result<(), ArenaError>)
        requires
            old(self).wf(),
        ensures
            final(self).wf(),
            final(self).config_spec() == old(self).config_spec(),
            final(self).static_spec() == old(self).static_spec(),
            final(self).fill() == old(self).fill(),
            final(self).defs() == old(self).defs(),
            r is Ok,
            r is Ok ==> {
                &&& final(self).generation_spec() == 0
                &&& !final(self).in_progress()
                &&& !final(self).b_staging()
                &&& final(self).last_tick() == TickId(0)
                &&& final(self).last_param() == ParameterVersion(0)
                &&& final(self).staging_table() == final(self).published_table()
                &&& forall|g: u32|
                    #[trigger] final(self).published_data(g) == match table_lookup(
                        final(self).published_table(),
                        g,
                    ) {
                        Some(e) => if e.meta.mutability == FieldMutability::Static {
                            old(self).static_spec().field_data(g)
                        } else {
                            Some(Seq::new(e.meta.total_len as nat, |i: int| old(self).fill()))
                        },
                        None => None,
                    }
                &&& final(self).published_table().len() == table_of(
                    old(self).defs(),
                    old(self).config_spec().cell_count,
                ).len()
                &&& forall|j: int|
                    0 <= j < final(self).published_table().len() ==> {
                        let (id, e) = table_of(old(self).defs(), old(self).config_spec().cell_count)[j];
                        let (id2, e2) = #[trigger] final(self).published_table()[j];
                        &&& id2 == id
                        &&& e2.meta == e.meta
                        &&& e2.handle.generation == 0
                        &&& e2.handle.len == e.meta.total_len || e.meta.mutability
                            == FieldMutability::Static
                    }
            },
    {
        let ghost t_pub = self.published_table();
        let ghost t_stage = self.staging_table();
        self.buffer_a.reset();
        self.buffer_b.reset();
        proof {
            lemma_table_ok_grows(
                t_pub,
                old(self).published_pool(),
                self.sparse_segments,
                self.published_pool(),
                self.sparse_segments,
            );
            if self.tick_in_progress {
                lemma_table_ok_grows(
                    t_stage,
                    old(self).staging_pool(),
                    self.sparse_segments,
                    self.staging_pool(),
                    self.sparse_segments,
                );
            }
        }
        let cell_count = self.config.cell_count;
        let per_tick_max = self.config.max_segments / 3;
        let sparse_max = self.config.max_segments - 2 * per_tick_max;
        proof {
            assert(sparse_max * self.config.segment_size <= self.config.max_segments
                * self.config.segment_size) by (nonlinear_arith)
                requires
                    sparse_max <= self.config.max_segments,
            ;
        }
        let descriptor = match FieldDescriptor::from_field_defs(self.field_defs.as_slice(), cell_count) {
            Ok(d) => d,
            Err(e) => {
                return Err(e);
            },
        };
        let mut sparse_segments = SegmentList::new(self.config.segment_size, sparse_max, self.zero);
        let ghost fresh_sparse = sparse_segments;
        let mut sparse_slab = SparseSlab::new();
        let mut staging_descriptor = descriptor;
        proof {
            assert forall|j: int| 0 <= j < staging_descriptor.table().len() implies (#[trigger] staging_descriptor.table()[j]).1.handle.location is PerTick by {
                lemma_table_of_entries(self.field_defs@, cell_count, j);
            }
        }
        let ghost t0 = staging_descriptor.table();
        match init_sparse_static(
            &mut staging_descriptor,
            &mut sparse_slab,
            &mut sparse_segments,
            &*self.static_arena,
        ) {
            Ok(()) => {},
            Err(e) => {
                proof {
                    assert(pool_state(fresh_sparse) == (0nat, 0nat, 1nat));
                    assert(!rebuild_fits(old(self).defs(), old(self).config_spec(), old(self).static_spec()));
                }
                return Err(e);
            },
        }
        let ghost t1 = staging_descriptor.table();
        let ghost pre_b = self.buffer_b;
        let ghost pre_a = self.buffer_a;
        let hs = match alloc_per_tick(&mut self.buffer_b, &staging_descriptor, 0) {
            Ok(hs) => hs,
            Err(e) => {
                proof {
                    self.lemma_pools_grow(pre_a, pre_b, t_pub, t_stage);
                    lemma_fill_same_meta(pool_state(pre_b), t1, t0, FieldMutability::PerTick, pre_b.size(), pre_b.max_count());
                    lemma_fill_count(0, 0, pre_b.segs().len(), 1, t0, FieldMutability::PerTick, pre_b.size(), pre_b.max_count());
                    assert(!rebuild_fits(old(self).defs(), old(self).config_spec(), old(self).static_spec()));
                }
                return Err(e);
            },
        };
        let ghost before = staging_descriptor.table();
        apply_handles(&mut staging_descriptor, &hs);
        let ghost mid_b = self.buffer_b;
        let ghost t2 = staging_descriptor.table();
        match alloc_per_tick(&mut self.buffer_a, &staging_descriptor, 0) {
            Ok(_) => {},
            Err(e) => {
                proof {
                    self.lemma_pools_grow(pre_a, pre_b, t_pub, t_stage);
                    lemma_fill_same_meta(pool_state(pre_a), t2, t0, FieldMutability::PerTick, pre_a.size(), pre_a.max_count());
                    lemma_fill_count(0, 0, pre_a.segs().len(), 1, t0, FieldMutability::PerTick, pre_a.size(), pre_a.max_count());
                    lemma_fill_same_meta(pool_state(pre_b), t1, t0, FieldMutability::PerTick, pre_b.size(), pre_b.max_count());
                    lemma_fill_count(0, 0, pre_b.segs().len(), 1, t0, FieldMutability::PerTick, pre_b.size(), pre_b.max_count());
                }
                return Err(e);
            },
        }
        self.published_descriptor = staging_descriptor.clone();
        self.staging_descriptor = staging_descriptor;
        self.sparse_segments = sparse_segments;
        self.sparse_slab = sparse_slab;
        self.generation = 0;
        self.next_generation = 0;
        self.tick_in_progress = false;
        self.b_is_staging = false;
        self.last_tick_id = TickId(0);
        self.last_param_version = ParameterVersion(0);
        proof {
            let t = self.published_table();
            assert forall|j: int| 0 <= j < t.len() implies handle_ok((#[trigger] t[j]).1.handle, self.buffer_b, self.sparse_segments)
                && location_matches(t[j].1) by {
                if hs@[j] is None {
                    assert(handle_ok(before[j].1.handle, self.sparse_segments, self.sparse_segments));
                } else {
                    assert(handle_ok(t[j].1.handle, mid_b, self.sparse_segments));
                }
            }
            assert forall|j: int| 0 <= j < t.len() implies {
                let (id, e) = table_of(self.field_defs@, cell_count)[j];
                let (id2, e2) = #[trigger] t[j];
                &&& id2 == id
                &&& e2.meta == e.meta
                &&& e2.handle.generation == 0
                &&& e2.handle.len == e.meta.total_len || e.meta.mutability == FieldMutability::Static
            } by {
                lemma_table_of_entries(self.field_defs@, cell_count, j);
            }
            self.lemma_initial_data(before, hs@);
            lemma_fill_same_meta(pool_state(pre_b), t1, t0, FieldMutability::PerTick, pre_b.size(), pre_b.max_count());
            lemma_fill_count(0, 0, pre_b.segs().len(), 1, t0, FieldMutability::PerTick, pre_b.size(), pre_b.max_count());
            assert(pool_state(fresh_sparse) == (0nat, 0nat, 1nat));
        }
        Ok(())
    }

    /// An arena just built or reset reads, for every field, the fill value
    /// of its length, or what the static arena stores for a static field.
    proof fn lemma_initial_data(&self, before: Seq<(u32, FieldEntry)>, hs: Seq<Option<FieldHandle>>)
        requires
            self.published_table().len() == before.len(),
            hs.len() == before.len(),
            !self.b_is_staging,
            forall|j: int|
                0 <= j < hs.len() ==> (#[trigger] self.published_table()[j]) == match hs[j] {
                    Some(h) => (before[j].0, FieldEntry { handle: h, meta: before[j].1.meta }),
                    None => before[j],
                },
            forall|j: int|
                0 <= j < hs.len() ==> {
                    &&& ((#[trigger] hs[j]) is Some <==> before[j].1.meta.mutability
                        == FieldMutability::PerTick)
                    &&& hs[j] is Some ==> {
                        let h = hs[j]->Some_0;
                        &&& h.len == before[j].1.meta.total_len
                        &&& h.location is PerTick
                        &&& self.buffer_b.segs()[seg_of(h)].0.subrange(h.offset as int, h.offset + h.len)
                            == Seq::new(h.len as nat, |x: int| self.zero)
                    }
                },
            forall|j: int|
                0 <= j < before.len() ==> {
                    let (id, e) = #[trigger] before[j];
                    &&& e.meta.mutability == FieldMutability::Sparse ==> e.handle.location is Sparse
                        && e.handle.len == e.meta.total_len
                    &&& e.meta.mutability == FieldMutability::Static ==> self.static_arena.location_of(id)
                        is Some && e.handle.location is Static
                },
            forall|j: int|
                0 <= j < before.len() && (#[trigger] before[j]).1.handle.location is Sparse
                    ==> self.sparse_segments.segs()[seg_of(before[j].1.handle)].0.subrange(
                    before[j].1.handle.offset as int,
                    before[j].1.handle.offset + before[j].1.handle.len,
                ) == Seq::new(before[j].1.handle.len as nat, |x: int| self.zero),
        ensures
            forall|g: u32|
                #[trigger] self.published_data(g) == match table_lookup(self.published_table(), g) {
                    Some(e) => if e.meta.mutability == FieldMutability::Static {
                        self.static_arena.field_data(g)
                    } else {
                        Some(Seq::new(e.meta.total_len as nat, |i: int| self.zero))
                    },
                    None => None,
                },
    {
        let t = self.published_table();
        assert forall|g: u32|
            #[trigger] self.published_data(g) == match table_lookup(t, g) {
                Some(e) => if e.meta.mutability == FieldMutability::Static {
                    self.static_arena.field_data(g)
                } else {
                    Some(Seq::new(e.meta.total_len as nat, |i: int| self.zero))
                },
                None => None,
            } by {
            if let Some(pg) = crate::arena::descriptor::table_position(t, g) {
                assert(t[pg].0 == g);
                assert(before[pg].0 == g);
                let m = before[pg].1.meta.mutability;
                if hs[pg] is Some {
                    assert(t[pg].1.handle == hs[pg]->Some_0);
                } else {
                    assert(t[pg] == before[pg]);
                    if m == FieldMutability::Sparse {
                        assert(before[pg].1.handle.location is Sparse);
                    } else {
                        assert(m == FieldMutability::Static);
                    }
                }
            }
        }
    }

    /// Outside a tick, a registered field that is not per-tick stages exactly
    /// what is published: sparse and static fields carry over into the next
    /// tick until written.
    pub proof fn lemma_staged_matches_published(&self, g: u32)
        requires
            self.wf(),
            !self.in_progress(),
            table_lookup(self.published_table(), g) is Some,
            table_lookup(self.published_table(), g)->Some_0.meta.mutability
                != FieldMutability::PerTick,
        ensures
            self.staged_data(g) == self.published_data(g),
    {
        let t = self.published_table();
        let pg = crate::arena::descriptor::table_position(t, g)->Some_0;
        assert(location_matches(t[pg].1));
    }

    /// Growing the per-tick pools keeps both descriptors' handles inside them.
    proof fn lemma_pools_grow(
        &self,
        pre_a: SegmentList<T>,
        pre_b: SegmentList<T>,
        t_pub: Seq<(u32, FieldEntry)>,
        t_stage: Seq<(u32, FieldEntry)>,
    )
        requires
            grows(pre_a, self.buffer_a),
            grows(pre_b, self.buffer_b),
            t_pub == self.published_table(),
            t_stage == self.staging_table(),
            table_ok(t_pub, if self.b_is_staging { pre_a } else { pre_b }, self.sparse_segments),
            self.tick_in_progress ==> table_ok(
                t_stage,
                if self.b_is_staging { pre_b } else { pre_a },
                self.sparse_segments,
            ),
        ensures
            table_ok(t_pub, self.published_pool(), self.sparse_segments),
            self.tick_in_progress ==> table_ok(t_stage, self.staging_pool(), self.sparse_segments),
    {
        let ps = self.sparse_segments;
        if self.b_is_staging {
            lemma_table_ok_grows(t_pub, pre_a, ps, self.buffer_a, ps);
            if self.tick_in_progress {
                lemma_table_ok_grows(t_stage, pre_b, ps, self.buffer_b, ps);
            }
        } else {
            lemma_table_ok_grows(t_pub, pre_b, ps, self.buffer_b, ps);
            if self.tick_in_progress {
                lemma_table_ok_grows(t_stage, pre_a, ps, self.buffer_a, ps);
            }
        }
    }


    /// Current generation number.
    pub fn generation(&self) -> (g: u32)
        ensures
            g == self.generation_spec(),
    {
        self.generation
    }

    /// The arena configuration.
    pub fn config(&self) -> (c: &ArenaConfig)
        ensures
            *c == self.config_spec(),
    {
        &self.config
    }

    /// The shared static arena.
    pub fn static_arena(&self) -> (s: &Arc<StaticArena<T>>)
        ensures
            **s == self.static_spec(),
    {
        &self.static_arena
    }

    /// Number of sparse segment ranges available for reuse.
    pub fn sparse_retired_range_count(&self) -> (n: usize)
        ensures
            n == self.slab().retired().len(),
    {
        self.sparse_slab.retired_range_count()
    }

    /// Number of sparse segment ranges freed during the current tick.
    pub fn sparse_pending_retired_count(&self) -> (n: usize)
        ensures
            n == self.slab().pending().len(),
    {
        self.sparse_slab.pending_retired_count()
    }
}

/// A read-only view of a published arena generation, borrowing the arena.
pub struct Snapshot<'a, T> {
    per_tick_segments: &'a SegmentList<T>,
    sparse_segments: &'a SegmentList<T>,
    static_arena: &'a StaticArena<T>,
    descriptor: &'a FieldDescriptor,
    tick_id: TickId,
    world_generation_id: WorldGenerationId,
    parameter_version: ParameterVersion,
}

impl<'a, T: Copy> Snapshot<'a, T> {
    /// A snapshot over the given pools, static arena and descriptor, with
    /// the given metadata. Every handle of the descriptor must point inside
    /// its pool.
    pub fn new(
        per_tick_segments: &'a SegmentList<T>,
        sparse_segments: &'a SegmentList<T>,
        static_arena: &'a StaticArena<T>,
        descriptor: &'a FieldDescriptor,
        tick_id: TickId,
        world_generation_id: WorldGenerationId,
        parameter_version: ParameterVersion,
    ) -> (s: Self)
        requires
            per_tick_segments.wf(),
            sparse_segments.wf(),
            static_arena.wf(),
            descriptor.wf(),
            table_ok(descriptor.table(), *per_tick_segments, *sparse_segments),
        ensures
            s.wf(),
            forall|f: u32|
                #[trigger] s.data(f) == match table_lookup(descriptor.table(), f) {
                    Some(e) => Some(
                        resolve(f, e.handle, *per_tick_segments, *sparse_segments, *static_arena),
                    ),
                    None => None,
                },
            s.tick_spec() == tick_id,
            s.generation_spec() == world_generation_id,
            s.param_spec() == parameter_version,
    {
        Snapshot {
            per_tick_segments,
            sparse_segments,
            static_arena,
            descriptor,
            tick_id,
            world_generation_id,
            parameter_version,
        }
    }

    /// The data of field `f` in this generation, if registered.
    pub closed spec fn data(&self, f: u32) -> Option<Seq<T>> {
        match table_lookup(self.descriptor.table(), f) {
            Some(e) => Some(
                resolve(f, e.handle, *self.per_tick_segments, *self.sparse_segments, *self.static_arena),
            ),
            None => None,
        }
    }

    /// Every handle points inside the pools.
    pub closed spec fn wf(&self) -> bool {
        &&& self.per_tick_segments.wf()
        &&& self.sparse_segments.wf()
        &&& self.static_arena.wf()
        &&& self.descriptor.wf()
        &&& table_ok(self.descriptor.table(), *self.per_tick_segments, *self.sparse_segments)
    }

    /// Tick when this snapshot was published.
    pub closed spec fn tick_spec(&self) -> TickId {
        self.tick_id
    }

    /// Arena generation of this snapshot.
    pub closed spec fn generation_spec(&self) -> WorldGenerationId {
        self.world_generation_id
    }

    /// Parameter version at the time of publication.
    pub closed spec fn param_spec(&self) -> ParameterVersion {
        self.parameter_version
    }

    /// Read a field's data; `None` for an unregistered field.
    pub fn read_field(&self, field: FieldId) -> (r: Option<&'a [T]>)
        requires
            self.wf(),
        ensures
            match r {
                Some(s) => self.data(field.0) == Some(s@),
                None => self.data(field.0) is None,
            },
    {
        read_resolved(
            self.per_tick_segments,
            self.sparse_segments,
            self.static_arena,
            self.descriptor,
            field,
        )
    }

    /// The tick at which this snapshot was produced.
    pub fn tick_id(&self) -> (t: TickId)
        ensures
            t == self.tick_spec(),
    {
        self.tick_id
    }

    /// The arena generation of this snapshot.
    pub fn world_generation_id(&self) -> (g: WorldGenerationId)
        ensures
            g == self.generation_spec(),
    {
        self.world_generation_id
    }

    /// The parameter version at the time of this snapshot.
    pub fn parameter_version(&self) -> (p: ParameterVersion)
        ensures
            p == self.param_spec(),
    {
        self.parameter_version
    }
}

/// Resolve `field` through `descriptor` to its data in the pools.
fn read_resolved<'a, T: Copy>(
    per_tick: &'a SegmentList<T>,
    sparse: &'a SegmentList<T>,
    statics: &'a StaticArena<T>,
    descriptor: &'a FieldDescriptor,
    field: FieldId,
) -> (r: Option<&'a [T]>)
    requires
        per_tick.wf(),
        sparse.wf(),
        statics.wf(),
        descriptor.wf(),
        table_ok(descriptor.table(), *per_tick, *sparse),
    ensures
        match r {
            Some(s) => table_lookup(descriptor.table(), field.0) is Some && s@ == resolve(
                field.0,
                table_lookup(descriptor.table(), field.0)->Some_0.handle,
                *per_tick,
                *sparse,
                *statics,
            ),
            None => table_lookup(descriptor.table(), field.0) is None,
        },
{
    proof {
        descriptor.lemma_lookup_is_table_lookup(field.0);
    }
    let handle = match descriptor.get(field) {
        Some(e) => e.handle,
        None => {
            return None;
        },
    };
    let ghost t = descriptor.table();
    let ghost pos = crate::arena::descriptor::table_position(t, field.0)->Some_0;
    proof {
        assert(handle_ok(t[pos].1.handle, *per_tick, *sparse));
    }
    match handle.location {
        FieldLocation::PerTick { segment_index } => Some(
            per_tick.slice(segment_index, handle.offset, handle.len),
        ),
        FieldLocation::Sparse { segment_index } => Some(
            sparse.slice(segment_index, handle.offset, handle.len),
        ),
        FieldLocation::Static { .. } => match statics.read_field(field) {
            Some(s) => Some(s),
            None => Some(empty_slice()),
        },
    }
}

/// An empty slice.
fn empty_slice<'a, T>() -> (s: &'a [T])
    ensures
        s@ == Seq::<T>::empty(),
{
    &[]
}

/// An owned, thread-safe snapshot of a published arena generation: copies
/// of the pools and the descriptor, sharing the static arena.
pub struct OwnedSnapshot<T> {
    per_tick_segments: SegmentList<T>,
    sparse_segments: SegmentList<T>,
    static_arena: Arc<StaticArena<T>>,
    descriptor: FieldDescriptor,
    tick_id: TickId,
    world_generation_id: WorldGenerationId,
    parameter_version: ParameterVersion,
}

impl<T: Copy> OwnedSnapshot<T> {
    /// A snapshot owning the given pools and descriptor and sharing the
    /// static arena, with the given metadata. Every handle of the
    /// descriptor must point inside its pool.
    pub fn new(
        per_tick_segments: SegmentList<T>,
        sparse_segments: SegmentList<T>,
        static_arena: Arc<StaticArena<T>>,
        descriptor: FieldDescriptor,
        tick_id: TickId,
        world_generation_id: WorldGenerationId,
        parameter_version: ParameterVersion,
    ) -> (s: Self)
        requires
            per_tick_segments.wf(),
            sparse_segments.wf(),
            static_arena.wf(),
            descriptor.wf(),
            table_ok(descriptor.table(), per_tick_segments, sparse_segments),
        ensures
            s.wf(),
            forall|f: u32|
                #[trigger] s.data(f) == match table_lookup(descriptor.table(), f) {
                    Some(e) => Some(
                        resolve(f, e.handle, per_tick_segments, sparse_segments, *static_arena),
                    ),
                    None => None,
                },
            s.tick_spec() == tick_id,
            s.generation_spec() == world_generation_id,
            s.param_spec() == parameter_version,
    {
        OwnedSnapshot {
            per_tick_segments,
            sparse_segments,
            static_arena,
            descriptor,
            tick_id,
            world_generation_id,
            parameter_version,
        }
    }

    /// The data of field `f` in this generation, if registered.
    pub closed spec fn data(&self, f: u32) -> Option<Seq<T>> {
        match table_lookup(self.descriptor.table(), f) {
            Some(e) => Some(
                resolve(f, e.handle, self.per_tick_segments, self.sparse_segments, *self.static_arena),
            ),
            None => None,
        }
    }

    /// Every handle points inside the pools.
    pub closed spec fn wf(&self) -> bool {
        &&& self.per_tick_segments.wf()
        &&& self.sparse_segments.wf()
        &&& self.static_arena.wf()
        &&& self.descriptor.wf()
        &&& table_ok(self.descriptor.table(), self.per_tick_segments, self.sparse_segments)
    }

    /// Tick when this snapshot was published.
    pub closed spec fn tick_spec(&self) -> TickId {
        self.tick_id
    }

    /// Arena generation of this snapshot.
    pub closed spec fn generation_spec(&self) -> WorldGenerationId {
        self.world_generation_id
    }

    /// Parameter version at the time of publication.
    pub closed spec fn param_spec(&self) -> ParameterVersion {
        self.parameter_version
    }

    /// Read a field's data; `None` for an unregistered field.
    pub fn read_field(&self, field: FieldId) -> (r: Option<&[T]>)
        requires
            self.wf(),
        ensures
            match r {
                Some(s) => self.data(field.0) == Some(s@),
                None => self.data(field.0) is None,
            },
    {
        read_resolved(
            &self.per_tick_segments,
            &self.sparse_segments,
            &*self.static_arena,
            &self.descriptor,
            field,
        )
    }

    /// The tick at which this snapshot was produced.
    pub fn tick_id(&self) -> (t: TickId)
        ensures
            t == self.tick_spec(),
    {
        self.tick_id
    }

    /// The arena generation of this snapshot.
    pub fn world_generation_id(&self) -> (g: WorldGenerationId)
        ensures
            g == self.generation_spec(),
    {
        self.world_generation_id
    }

    /// The parameter version at the time of this snapshot.
    pub fn parameter_version(&self) -> (p: ParameterVersion)
        ensures
            p == self.param_spec(),
    {
        self.parameter_version
    }
}

/// What a tick writes is what the next snapshot reads. If field `f` was
/// staged as `before` and then `values` were written at `start` (what a
/// successful `write_field` ensures), the arena published (every field's
/// published data is its staged data), and a snapshot was taken of it (it
/// reads the published data), then the snapshot reads `f` with the length of
/// `before`, `values` at `start..start + values.len()` and `before` elsewhere.
pub proof fn lemma_snapshot_reads_back_write<'a, T: Copy>(
    written: PingPongArena<T>,
    published: PingPongArena<T>,
    snap: Snapshot<'a, T>,
    f: u32,
    before: Seq<T>,
    start: int,
    values: Seq<T>,
)
    requires
        0 <= start,
        start + values.len() <= before.len(),
        written.staged_data(f) == Some(splice(before, start, values)),
        forall|g: u32| #[trigger] published.published_data(g) == written.staged_data(g),
        forall|g: u32| #[trigger] snap.data(g) == published.published_data(g),
    ensures
        snap.data(f) is Some,
        snap.data(f)->Some_0.len() == before.len(),
        forall|i: int|
            0 <= i < values.len() ==> #[trigger] snap.data(f)->Some_0[start + i] == values[i],
        forall|i: int|
            0 <= i < before.len() && !(start <= i < start + values.len())
                ==> #[trigger] snap.data(f)->Some_0[i] == before[i],
{
    assert(snap.data(f) == published.published_data(f));
    assert(published.published_data(f) == written.staged_data(f));
    let s = splice(before, start, values);
    assert(s.len() == before.len());
    assert forall|i: int| 0 <= i < values.len() implies #[trigger] s[start + i] == values[i] by {
        assert(s[start + i] == (before.subrange(0, start) + values)[start + i]);
    }
    assert forall|i: int|
        0 <= i < before.len() && !(start <= i < start + values.len()) implies #[trigger] s[i]
        == before[i] by {
        if i < start {
            assert(s[i] == (before.subrange(0, start) + values)[i]);
        } else {
            assert(s[i] == before.subrange(start + values.len(), before.len() as int)[i - start
                - values.len()]);
        }
    }
}

/// The reason given for an invalid segment size.
#[verifier::external_body]
fn segment_size_reason(segment_size: u32) -> String {
    format!("segment_size must be a power of two and >= 1024 (got {segment_size})")
}

/// The reason given for too few segments.
#[verifier::external_body]
fn max_segments_reason(max_segments: u16) -> String {
    format!(
        "max_segments must be >= 3 (got {max_segments}); the arena requires at least one segment per pool (buffer_a, buffer_b, sparse)"
    )
}

/// The reason given when the generation counter would overflow.
fn generation_overflow_reason() -> (s: String)
    ensures
        s@ == "generation counter overflow (u32::MAX ticks reached)"@,
{
    "generation counter overflow (u32::MAX ticks reached)".to_owned()
}

/// The reason given when `publish()` is called outside a tick.
fn publish_without_tick_reason() -> (s: String)
    ensures
        s@ == "publish() called without a preceding begin_tick()"@,
{
    "publish() called without a preceding begin_tick()".to_owned()
}

} // verus!
