//! Writes a tick makes into the arena before its propagators run: field
//! commands at their cell's rank, and incremental fields seeded from the
//! previous generation.
use vstd::prelude::*;

use crate::arena::pingpong::{splice, PingPongArena};
use crate::field::FieldMutability;
use crate::id::FieldId;

verus! {

/// Apply a field command: write `value` at cell `rank` of field `field`,
/// where the space gave the command's coordinate a rank (`None` when it did
/// not) and the field has that cell. Returns whether the value was written;
/// otherwise nothing changes.
pub fn apply_set_field<T: Copy>(
    arena: &mut PingPongArena<T>,
    field: FieldId,
    rank: Option<usize>,
    value: T,
) -> (ok: bool)
    requires
        old(arena).wf(),
    ensures
        final(arena).wf(),
        final(arena).in_progress() == old(arena).in_progress(),
        final(arena).generation_spec() == old(arena).generation_spec(),
        final(arena).next_generation_spec() == old(arena).next_generation_spec(),
        ok <==> rank is Some && rank->Some_0 <= u32::MAX && old(arena).write_succeeds(
            field.0,
            rank->Some_0 as int,
            1,
        ),
        ok ==> final(arena).staged_data(field.0) == Some(
            old(arena).staged_data(field.0)->Some_0.update(rank->Some_0 as int, value),
        ),
        !ok ==> *final(arena) == *old(arena),
        forall|g: u32| #[trigger] final(arena).published_data(g) == old(arena).published_data(g),
        forall|g: u32|
            g != field.0 ==> #[trigger] final(arena).staged_data(g) == old(arena).staged_data(g),
{
    let r = match rank {
        Some(r) => r,
        None => {
            return false;
        },
    };
    if r > u32::MAX as usize {
        return false;
    }
    let values: Vec<T> = vec![value];
    let ghost before = old(arena).staged_data(field.0);
    let ok = arena.write_field(field, r as u32, values.as_slice());
    proof {
        if ok {
            let s = before->Some_0;
            assert(values@ =~= seq![value]);
            assert(splice(s, r as int, values@) =~= s.update(r as int, value));
        }
    }
    ok
}

/// Seed field `field` of the staging generation from `prev`, what it held in
/// the previous generation: its first `min(prev.len(), length)` values are
/// copied over. Returns whether the field could be written (a tick in
/// progress, a registered per-tick or sparse field, room for a sparse copy);
/// otherwise nothing changes.
pub fn seed_incremental<T: Copy>(arena: &mut PingPongArena<T>, field: FieldId, prev: &[T]) -> (ok: bool)
    requires
        old(arena).wf(),
    ensures
        final(arena).wf(),
        final(arena).in_progress() == old(arena).in_progress(),
        final(arena).generation_spec() == old(arena).generation_spec(),
        final(arena).next_generation_spec() == old(arena).next_generation_spec(),
        ({
            let cur = old(arena).staged_data(field.0)->Some_0;
            let n = if prev@.len() <= cur.len() {
                prev@.len() as int
            } else {
                cur.len() as int
            };
            &&& ok <==> old(arena).staged_data(field.0) is Some && table_lookup_mutability(
                *old(arena),
                field.0,
            ) != FieldMutability::Static && old(arena).write_succeeds(field.0, 0, n)
            &&& ok ==> final(arena).staged_data(field.0) == Some(splice(cur, 0, prev@.subrange(0, n)))
        }),
        !ok ==> *final(arena) == *old(arena),
        forall|g: u32| #[trigger] final(arena).published_data(g) == old(arena).published_data(g),
        forall|g: u32|
            g != field.0 ==> #[trigger] final(arena).staged_data(g) == old(arena).staged_data(g),
{
    let len = match arena.read_staged(field) {
        Some(cur) => cur.len(),
        None => {
            return false;
        },
    };
    let n = if prev.len() <= len {
        prev.len()
    } else {
        len
    };
    let mut head: Vec<T> = Vec::new();
    let mut i: usize = 0;
    while i < n
        invariant
            i <= n,
            n <= prev@.len(),
            head@ == prev@.subrange(0, i as int),
        decreases n - i,
    {
        head.push(prev[i]);
        i = i + 1;
        assert(head@ =~= prev@.subrange(0, i as int));
    }
    arena.write_field(field, 0, head.as_slice())
}

/// The mutability of field `f` in the arena's staging descriptor.
pub open spec fn table_lookup_mutability<T: Copy>(arena: PingPongArena<T>, f: u32) -> FieldMutability {
    crate::arena::pingpong::table_lookup(arena.staging_table(), f)->Some_0.meta.mutability
}

} // verus!
