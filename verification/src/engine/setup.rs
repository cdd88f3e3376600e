//! The arena inputs of a world: its field definitions numbered in order,
//! and the sizes of its static fields.
use vstd::prelude::*;

use crate::field::{FieldDef, FieldMutability};
use crate::id::FieldId;

verus! {

/// Number the field definitions in order: the `i`-th gets `FieldId(i)`.
pub fn number_fields(fields: Vec<FieldDef>) -> (r: Vec<(FieldId, FieldDef)>)
    requires
        fields@.len() <= u32::MAX + 1,
    ensures
        r@.len() == fields@.len(),
        forall|i: int| 0 <= i < r@.len() ==> #[trigger] r@[i] == (FieldId(i as u32), fields@[i]),
{
    let ghost all = fields@;
    let n = fields.len();
    let mut rest = fields;
    let mut reversed: Vec<FieldDef> = Vec::new();
    while rest.len() > 0
        invariant
            n == all.len(),
            rest@ == all.subrange(0, rest@.len() as int),
            reversed@.len() + rest@.len() == n,
            forall|j: int| 0 <= j < reversed@.len() ==> #[trigger] reversed@[j] == all[n - 1 - j],
        decreases rest@.len(),
    {
        let d = rest.pop().unwrap();
        reversed.push(d);
    }
    let mut r: Vec<(FieldId, FieldDef)> = Vec::new();
    let mut i: usize = 0;
    while reversed.len() > 0
        invariant
            n == all.len(),
            n <= u32::MAX + 1,
            i + reversed@.len() == n,
            r@.len() == i,
            forall|j: int| 0 <= j < reversed@.len() ==> #[trigger] reversed@[j] == all[n - 1 - j],
            forall|k: int| 0 <= k < i ==> #[trigger] r@[k] == (FieldId(k as u32), all[k]),
        decreases reversed@.len(),
    {
        let d = reversed.pop().unwrap();
        r.push((FieldId(i as u32), d));
        i = i + 1;
    }
    r
}

/// The static fields among `defs`, in order, each with its length:
/// `cell_count` times its number of components.
pub open spec fn static_sizes(defs: Seq<(FieldId, FieldDef)>, cell_count: u32) -> Seq<(FieldId, u32)>
    decreases defs.len(),
{
    if defs.len() == 0 {
        Seq::empty()
    } else {
        let rest = static_sizes(defs.drop_last(), cell_count);
        let (id, d) = defs.last();
        if d.mutability == FieldMutability::Static {
            rest.push((id, (cell_count * d.field_type.components_spec()) as u32))
        } else {
            rest
        }
    }
}

/// List the static fields of `defs` with their lengths, to lay out the
/// static arena.
pub fn static_field_sizes(defs: &[(FieldId, FieldDef)], cell_count: u32) -> (r: Vec<(FieldId, u32)>)
    requires
        forall|i: int|
            0 <= i < defs@.len() && (#[trigger] defs@[i]).1.mutability == FieldMutability::Static
                ==> cell_count * defs@[i].1.field_type.components_spec() <= u32::MAX,
    ensures
        r@ == static_sizes(defs@, cell_count),
{
    let mut r: Vec<(FieldId, u32)> = Vec::new();
    let n = defs.len();
    let mut i: usize = 0;
    while i < n
        invariant
            n == defs@.len(),
            i <= n,
            r@ == static_sizes(defs@.subrange(0, i as int), cell_count),
            forall|k: int|
                0 <= k < defs@.len() && (#[trigger] defs@[k]).1.mutability == FieldMutability::Static
                    ==> cell_count * defs@[k].1.field_type.components_spec() <= u32::MAX,
        decreases n - i,
    {
        proof {
            assert(defs@.subrange(0, i + 1).drop_last() =~= defs@.subrange(0, i as int));
            assert(defs@.subrange(0, i + 1).last() == defs@[i as int]);
        }
        if defs[i].1.mutability == FieldMutability::Static {
            let c = defs[i].1.field_type.components();
            r.push((defs[i].0, cell_count * c));
        }
        i = i + 1;
    }
    proof {
        assert(defs@.subrange(0, n as int) =~= defs@);
    }
    r
}

} // verus!
