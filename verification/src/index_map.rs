//! The insertion-ordered map of the `indexmap` crate, as the library uses it:
//! from `u32` keys (field ids) to `usize` positions.
use vstd::prelude::*;

use indexmap::IndexMap;

verus! {

#[verifier::external_type_specification]
#[verifier::external_body]
#[verifier::reject_recursive_types(K)]
#[verifier::reject_recursive_types(V)]
#[verifier::reject_recursive_types(S)]
pub struct ExIndexMap<K, V, S>(IndexMap<K, V, S>);

/// The entries of an index map, in insertion order.
pub uninterp spec fn index_map_entries(m: IndexMap<u32, usize>) -> Seq<(u32, usize)>;

/// No key occurs twice among the entries.
pub open spec fn keys_unique(e: Seq<(u32, usize)>) -> bool {
    forall|i: int, j: int| 0 <= i < j < e.len() ==> e[i].0 != e[j].0
}

/// Position of the entry with key `k`, if any.
pub open spec fn key_position(e: Seq<(u32, usize)>, k: u32) -> Option<int> {
    if exists|i: int| 0 <= i < e.len() && e[i].0 == k {
        Some(choose|i: int| 0 <= i < e.len() && e[i].0 == k)
    } else {
        None
    }
}

/// The value stored under `k`, if any.
pub open spec fn key_value(e: Seq<(u32, usize)>, k: u32) -> Option<usize> {
    match key_position(e, k) {
        Some(i) => Some(e[i].1),
        None => None,
    }
}

/// With unique keys, the entry found for `k` is the only one with that key.
pub proof fn lemma_key_position_unique(e: Seq<(u32, usize)>, k: u32, i: int)
    requires
        keys_unique(e),
        0 <= i < e.len(),
        e[i].0 == k,
    ensures
        key_position(e, k) == Some(i),
        key_value(e, k) == Some(e[i].1),
{
    let j = choose|j: int| 0 <= j < e.len() && e[j].0 == k;
    if j != i {
        if j < i {
            assert(e[j].0 != e[i].0);
        } else {
            assert(e[i].0 != e[j].0);
        }
    }
}

/// The entries after inserting `(k, v)`: an existing key takes the new
/// value in place, a new key is appended.
pub open spec fn inserted(e: Seq<(u32, usize)>, k: u32, v: usize) -> Seq<(u32, usize)> {
    match key_position(e, k) {
        Some(i) => e.update(i, (k, v)),
        None => e.push((k, v)),
    }
}

/// Inserting keeps keys unique.
pub proof fn lemma_insert_keeps_unique(e: Seq<(u32, usize)>, k: u32, v: usize)
    requires
        keys_unique(e),
    ensures
        keys_unique(inserted(e, k, v)),
{
    let f = inserted(e, k, v);
    match key_position(e, k) {
        Some(i) => {
            assert(e[i].0 == k);
            assert forall|a: int, b: int| 0 <= a < b < f.len() implies f[a].0 != f[b].0 by {
                assert(e[a].0 != e[b].0);
            }
        },
        None => {
            assert forall|a: int, b: int| 0 <= a < b < f.len() implies f[a].0 != f[b].0 by {
                if b == e.len() {
                    assert(!(0 <= a < e.len() && e[a].0 == k));
                } else {
                    assert(e[a].0 != e[b].0);
                }
            }
        },
    }
}

/// Calls `IndexMap::new`: the map it returns is empty.
#[verifier::external_body]
pub(crate) fn index_map_new() -> (m: IndexMap<u32, usize>)
    ensures
        index_map_entries(m) == Seq::<(u32, usize)>::empty(),
{
    IndexMap::new()
}

/// Calls `IndexMap::clone`: the copy holds the same entries in the same order.
#[verifier::external_body]
pub(crate) fn index_map_clone(m: &IndexMap<u32, usize>) -> (c: IndexMap<u32, usize>)
    ensures
        index_map_entries(c) == index_map_entries(*m),
{
    m.clone()
}

/// Calls `IndexMap::insert`: an existing key keeps its place and takes the
/// new value, and its old value is returned; a new key is appended last.
#[verifier::external_body]
pub(crate) fn index_map_insert(m: &mut IndexMap<u32, usize>, k: u32, v: usize) -> (r: Option<usize>)
    ensures
        ({
            let e = index_map_entries(*old(m));
            match key_position(e, k) {
                Some(i) => {
                    &&& r == Some(e[i].1)
                    &&& index_map_entries(*final(m)) == e.update(i, (k, v))
                },
                None => {
                    &&& r is None
                    &&& index_map_entries(*final(m)) == e.push((k, v))
                },
            }
        }),
{
    m.insert(k, v)
}

/// Calls `IndexMap::get`: the value stored under `k`, if any.
#[verifier::external_body]
pub(crate) fn index_map_get(m: &IndexMap<u32, usize>, k: u32) -> (r: Option<usize>)
    ensures
        r == key_value(index_map_entries(*m), k),
{
    m.get(&k).copied()
}

/// Calls `IndexMap::contains_key`: whether some entry has key `k`.
#[verifier::external_body]
pub(crate) fn index_map_contains_key(m: &IndexMap<u32, usize>, k: u32) -> (r: bool)
    ensures
        r == (key_position(index_map_entries(*m), k) is Some),
{
    m.contains_key(&k)
}

/// Calls `IndexMap::len`: the number of entries.
#[verifier::external_body]
pub(crate) fn index_map_len(m: &IndexMap<u32, usize>) -> (n: usize)
    ensures
        n == index_map_entries(*m).len(),
{
    m.len()
}

/// Calls `IndexMap::get_index`: the entry at position `i` in insertion order.
#[verifier::external_body]
pub(crate) fn index_map_get_index(m: &IndexMap<u32, usize>, i: usize) -> (r: Option<(u32, usize)>)
    ensures
        i < index_map_entries(*m).len() ==> r == Some(index_map_entries(*m)[i as int]),
        i >= index_map_entries(*m).len() ==> r is None,
{
    m.get_index(i).map(|(k, v)| (*k, *v))
}

} // verus!
