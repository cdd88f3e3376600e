//! Deterministic initial agent placement.
use vstd::prelude::*;

use std::collections::HashSet;

verus! {

broadcast use vstd::std_specs::hash::group_hash_axioms;

/// Multiplier applied to the seed.
pub const SEED_MULTIPLIER: u64 = 6364136223846793005;

/// Multiplier applied to the agent index.
pub const INDEX_MULTIPLIER: u64 = 1442695040888963407;

/// Where agent `i` is first tried: a wrapping hash of seed and index,
/// reduced modulo the cell count.
pub open spec fn start_position(cell_count: usize, seed: u64, i: u16) -> usize {
    (seed.wrapping_mul(SEED_MULTIPLIER).wrapping_add((i as u64).wrapping_mul(INDEX_MULTIPLIER))
        % (cell_count as u64)) as usize
}

/// The position `d` steps after `start` on a ring of `n` cells.
pub open spec fn ring_step(start: usize, d: int, n: usize) -> usize {
    ((start + d) % (n as int)) as usize
}

/// The first position at or cyclically after `pos` not in `occupied`,
/// trying at most `fuel` positions.
pub open spec fn probe(occupied: Set<usize>, pos: usize, cell_count: usize, fuel: nat) -> usize
    decreases fuel,
{
    if fuel == 0 || !occupied.contains(pos) {
        pos
    } else {
        probe(occupied, ((pos + 1) % (cell_count as int)) as usize, cell_count, (fuel - 1) as nat)
    }
}

/// The positions of the first `k` agents: each agent takes the first free
/// position from its start position on, in agent order.
pub open spec fn placements(cell_count: usize, seed: u64, k: nat) -> Seq<usize>
    decreases k,
{
    if k == 0 {
        Seq::empty()
    } else {
        let prev = placements(cell_count, seed, (k - 1) as nat);
        prev.push(
            probe(
                prev.to_set(),
                start_position(cell_count, seed, (k - 1) as u16),
                cell_count,
                cell_count as nat,
            ),
        )
    }
}

/// No position occurs twice in `s`.
pub open spec fn all_distinct(s: Seq<usize>) -> bool {
    forall|a: int, b: int| 0 <= a < b < s.len() ==> s[a] != s[b]
}

/// The number of agents placed: `n`, clamped to the cell count.
pub open spec fn placed_count(cell_count: usize, n: u16) -> nat {
    if (n as int) < cell_count {
        n as nat
    } else {
        cell_count as nat
    }
}

proof fn lemma_full_range(n: usize)
    ensures
        Set::new(|x: usize| x < n).finite(),
        Set::new(|x: usize| x < n).len() == n,
    decreases n,
{
    if n == 0 {
        assert(Set::new(|x: usize| x < n) =~= Set::<usize>::empty());
    } else {
        lemma_full_range((n - 1) as usize);
        let below = Set::new(|x: usize| x < (n - 1) as usize);
        assert(!below.contains((n - 1) as usize));
        assert(Set::new(|x: usize| x < n) =~= below.insert((n - 1) as usize));
    }
}

/// With fewer than `n` occupied positions, all below `n`, some position
/// within `n` steps of `start` is free.
proof fn lemma_some_free(occ: Set<usize>, start: usize, n: usize)
    requires
        occ.finite(),
        occ.len() < n,
        start < n,
        forall|x: usize| occ.contains(x) ==> x < n,
    ensures
        exists|d: int| 0 <= d < n && !occ.contains(#[trigger] ring_step(start, d, n)),
{
    if forall|d: int| 0 <= d < n ==> occ.contains(#[trigger] ring_step(start, d, n)) {
        let full = Set::new(|x: usize| x < n);
        assert forall|x: usize| full.contains(x) implies occ.contains(x) by {
            let d: int = if x >= start {
                x - start
            } else {
                x + n - start
            };
            assert((start + d) % (n as int) == x) by (nonlinear_arith)
                requires
                    0 <= x < n,
                    0 <= start < n,
                    d == if x >= start {
                        x - start
                    } else {
                        x + n - start
                    },
            ;
            assert(occ.contains(ring_step(start, d, n)));
        }
        lemma_full_range(n);
        vstd::set_lib::lemma_len_subset(full, occ);
    }
}

/// Probing from `pos` with enough fuel lands on a free position, the
/// first free one cyclically from `pos`.
proof fn lemma_probe_free(occ: Set<usize>, pos: usize, n: usize, fuel: nat, d: int)
    requires
        pos < n,
        0 <= d < fuel,
        !occ.contains(ring_step(pos, d, n)),
    ensures
        !occ.contains(probe(occ, pos, n, fuel)),
        probe(occ, pos, n, fuel) < n,
    decreases fuel,
{
    if occ.contains(pos) {
        vstd::arithmetic::div_mod::lemma_small_mod(pos as nat, n as nat);
        assert(ring_step(pos, 0, n) == pos);
        let next = ((pos + 1) % (n as int)) as usize;
        assert(d != 0);
        assert(((next + (d - 1)) % (n as int)) == (pos + d) % (n as int)) by (nonlinear_arith)
            requires
                next == (pos + 1) % (n as int),
                0 <= pos < n,
                1 <= d,
        ;
        lemma_probe_free(occ, next, n, (fuel - 1) as nat, d - 1);
    }
}

/// Placing one more agent at `pos`, the first free position from its start,
/// extends the placements by `pos` and keeps them pairwise distinct.
proof fn lemma_placements_step(cell_count: usize, seed: u64, i: u16, pos: usize)
    requires
        placements(cell_count, seed, i as nat).len() == i,
        pos == probe(
            placements(cell_count, seed, i as nat).to_set(),
            start_position(cell_count, seed, i),
            cell_count,
            cell_count as nat,
        ),
        !placements(cell_count, seed, i as nat).to_set().contains(pos),
        all_distinct(placements(cell_count, seed, i as nat)),
    ensures
        placements(cell_count, seed, i as nat + 1) == placements(cell_count, seed, i as nat).push(
            pos,
        ),
        placements(cell_count, seed, i as nat + 1).to_set() == placements(
            cell_count,
            seed,
            i as nat,
        ).to_set().insert(pos),
        placements(cell_count, seed, i as nat + 1).len() == i + 1,
        all_distinct(placements(cell_count, seed, i as nat + 1)),
{
    let prev = placements(cell_count, seed, i as nat);
    let next = placements(cell_count, seed, i as nat + 1);
    assert(((i as nat + 1 - 1) as nat) == i as nat);
    assert(next == prev.push(pos));
    prev.lemma_push_to_set_commute(pos);
    assert forall|a: int, b: int| 0 <= a < b < i + 1 implies next[a] != next[b] by {
        if b == i {
            assert(prev.to_set().contains(prev[a]));
        }
    }
}

/// The seeded hash of agent `i`: `seed * 6364136223846793005 + i *
/// 1442695040888963407`, modulo 2^64.
pub open spec fn agent_hash(seed: u64, i: int) -> int {
    (seed as int * 6364136223846793005 + i * 1442695040888963407) % 0x1_0000_0000_0000_0000int
}

/// Cell `e` steps cyclically after cell `s` on a ring of `n` cells.
pub open spec fn ring_cell(s: int, e: int, n: int) -> int {
    (s + e) % n
}

/// Some agent of `v` before agent `i` took cell `x`.
pub open spec fn taken_before(v: Seq<(u16, usize)>, i: int, x: int) -> bool {
    exists|k: int| 0 <= k < i && v[k].1 == x
}

/// Agent `i` of `v` sits at the first cell, cyclically from cell `s` of a
/// ring of `n` cells, that no earlier agent of `v` took.
pub open spec fn first_untaken_from(v: Seq<(u16, usize)>, i: int, s: int, n: int) -> bool {
    exists|d: int|
        0 <= d < n && v[i].1 == ring_cell(s, d, n) && forall|e: int|
            0 <= e < d ==> #[trigger] taken_before(v, i, ring_cell(s, e, n))
}

/// The wrapping hash computed in code is `agent_hash`.
proof fn lemma_hash(seed: u64, i: u16, h: u64)
    requires
        h == seed.wrapping_mul(SEED_MULTIPLIER).wrapping_add((i as u64).wrapping_mul(INDEX_MULTIPLIER)),
    ensures
        h as int == agent_hash(seed, i as int),
{
    let r: int = 0x1_0000_0000_0000_0000int;
    let x: int = seed as int * 6364136223846793005;
    let y: int = i as int * 1442695040888963407;
    vstd::arithmetic::div_mod::lemma_add_mod_noop(x, y, r);
    vstd::arithmetic::div_mod::lemma_mod_pos_bound(x, r);
    vstd::arithmetic::div_mod::lemma_mod_pos_bound(y, r);
    let a = x % r;
    let b = y % r;
    if a + b >= r {
        assert((a + b) % r == a + b - r) by {
            vstd::arithmetic::div_mod::lemma_mod_sub_multiples_vanish(a + b, r);
            vstd::arithmetic::div_mod::lemma_small_mod((a + b - r) as nat, r as nat);
        }
    } else {
        vstd::arithmetic::div_mod::lemma_small_mod((a + b) as nat, r as nat);
    }
}

/// Cell `x` is in `occ`.
pub open spec fn held(occ: Set<usize>, x: int) -> bool {
    occ.contains(x as usize)
}

/// Probing finds, from `pos`, the first position not in `occ`: it is `d`
/// steps on, every position before it being taken.
proof fn lemma_probe_shape(occ: Set<usize>, pos: usize, n: usize, fuel: nat)
    requires
        pos < n,
    ensures
        exists|d: int|
            0 <= d <= fuel && probe(occ, pos, n, fuel) == ring_cell(pos as int, d, n as int)
                && forall|e: int| 0 <= e < d ==> #[trigger] held(occ, ring_cell(pos as int, e, n as int)),
    decreases fuel,
{
    vstd::arithmetic::div_mod::lemma_small_mod(pos as nat, n as nat);
    if fuel == 0 || !occ.contains(pos) {
        assert(probe(occ, pos, n, fuel) == ring_cell(pos as int, 0, n as int));
    } else {
        let next = ((pos + 1) % (n as int)) as usize;
        vstd::arithmetic::div_mod::lemma_mod_pos_bound(pos + 1, n as int);
        lemma_probe_shape(occ, next, n, (fuel - 1) as nat);
        let d1 = choose|d: int|
            0 <= d <= fuel - 1 && probe(occ, next, n, (fuel - 1) as nat) == ring_cell(next as int, d, n as int)
                && forall|e: int| 0 <= e < d ==> #[trigger] held(occ, ring_cell(next as int, e, n as int));
        assert forall|e: int| 0 <= e <= d1 + 1 implies #[trigger] ring_cell(next as int, e, n as int)
            == ring_cell(pos as int, 1 + e, n as int) by {
            vstd::arithmetic::div_mod::lemma_add_mod_noop(pos + 1, e, n as int);
            vstd::arithmetic::div_mod::lemma_mod_twice(pos + 1, n as int);
            vstd::arithmetic::div_mod::lemma_mod_pos_bound(e, n as int);
            vstd::arithmetic::div_mod::lemma_add_mod_noop(next as int, e, n as int);
        }
        assert forall|e: int| 0 <= e < d1 + 1 implies #[trigger] held(occ, ring_cell(pos as int, e, n as int)) by {
            if e > 0 {
                assert(ring_cell(next as int, e - 1, n as int) == ring_cell(pos as int, e, n as int));
                assert(held(occ, ring_cell(next as int, e - 1, n as int)));
            } else {
                assert(ring_cell(pos as int, 0, n as int) == pos);
            }
        }
        assert(ring_cell(next as int, d1, n as int) == ring_cell(pos as int, 1 + d1, n as int));
        assert(probe(occ, pos, n, fuel) == ring_cell(pos as int, d1 + 1, n as int));
    }
}

/// The first position at or cyclically after `start` that `occupied` does
/// not hold.
fn first_free(occupied: &HashSet<usize>, start: usize, cell_count: usize) -> (pos: usize)
    requires
        occupied@.finite(),
        occupied@.len() < cell_count,
        start < cell_count,
        forall|x: usize| occupied@.contains(x) ==> x < cell_count,
    ensures
        pos == probe(occupied@, start, cell_count, cell_count as nat),
        !occupied@.contains(pos),
        pos < cell_count,
{
    proof {
        lemma_some_free(occupied@, start, cell_count);
    }
    let ghost d0 = choose|d: int|
        0 <= d < cell_count && !occupied@.contains(#[trigger] ring_step(start, d, cell_count));
    let mut pos = start;
    let mut steps: usize = 0;
    proof {
        vstd::arithmetic::div_mod::lemma_small_mod(start as nat, cell_count as nat);
    }
    while occupied.contains(&pos)
        invariant
            cell_count > 0,
            pos < cell_count,
            steps <= d0,
            0 <= d0 < cell_count,
            pos == ring_step(start, steps as int, cell_count),
            !occupied@.contains(ring_step(start, d0, cell_count)),
            probe(occupied@, pos, cell_count, (cell_count - steps) as nat) == probe(
                occupied@,
                start,
                cell_count,
                cell_count as nat,
            ),
        decreases d0 - steps,
    {
        proof {
            if steps == d0 {
                assert(false);
            }
            assert(((pos + 1) % (cell_count as int)) == (start + steps + 1) % (cell_count as int))
                by (nonlinear_arith)
                requires
                    pos == (start + steps) % (cell_count as int),
                    cell_count > 0,
            ;
        }
        pos = (pos + 1) % cell_count;
        steps = steps + 1;
    }
    pos
}

/// Generate deterministic initial agent positions: `(agent_id, cell)`
/// pairs for agents `0..min(n, cell_count)`, each at the first free cell
/// from a seeded hash of its index. No agent is placed on a zero-cell grid.
pub fn init_agent_positions(cell_count: usize, n: u16, seed: u64) -> (v: Vec<(u16, usize)>)
    ensures
        v@.len() == if cell_count == 0 {
            0
        } else {
            placed_count(cell_count, n)
        },
        forall|i: int| 0 <= i < v@.len() ==> (#[trigger] v@[i]).0 == i,
        cell_count > 0 ==> forall|i: int|
            0 <= i < v@.len() ==> (#[trigger] v@[i]).1 == placements(
                cell_count,
                seed,
                v@.len(),
            )[i],
        forall|i: int| 0 <= i < v@.len() ==> (#[trigger] v@[i]).1 < cell_count,
        forall|i: int, j: int| 0 <= i < j < v@.len() ==> v@[i].1 != v@[j].1,
        cell_count > 0 ==> forall|i: int|
            0 <= i < v@.len() ==> #[trigger] first_untaken_from(
                v@,
                i,
                agent_hash(seed, i) % (cell_count as int),
                cell_count as int,
            ),
        cell_count > 0 ==> forall|i: int|
            0 <= i < v@.len() && (forall|k: int|
                0 <= k < i ==> v@[k].1 != agent_hash(seed, i) % (cell_count as int)) ==> #[trigger] v@[i].1
                == agent_hash(seed, i) % (cell_count as int),
{
    if cell_count == 0 {
        return Vec::new();
    }
    let count: u16 = if (n as usize) < cell_count {
        n
    } else {
        cell_count as u16
    };
    let mut positions: Vec<(u16, usize)> = Vec::new();
    let mut occupied: HashSet<usize> = HashSet::new();
    let mut i: u16 = 0;
    while i < count
        invariant
            cell_count > 0,
            count == placed_count(cell_count, n),
            i <= count,
            positions@.len() == i,
            occupied@ == placements(cell_count, seed, i as nat).to_set(),
            occupied@.finite(),
            occupied@.len() == i,
            forall|k: int| 0 <= k < i ==> (#[trigger] positions@[k]).0 == k,
            forall|k: int|
                0 <= k < i ==> (#[trigger] positions@[k]).1 == placements(cell_count, seed, i as nat)[k],
            forall|x: usize| occupied@.contains(x) ==> x < cell_count,
            forall|k: int| 0 <= k < i ==> (#[trigger] positions@[k]).1 < cell_count,
            placements(cell_count, seed, i as nat).len() == i,
            all_distinct(placements(cell_count, seed, i as nat)),
            forall|k: int|
                0 <= k < i ==> #[trigger] first_untaken_from(
                    positions@,
                    k,
                    agent_hash(seed, k) % (cell_count as int),
                    cell_count as int,
                ),
        decreases count - i,
    {
        let ghost prev = placements(cell_count, seed, i as nat);
        let h = seed.wrapping_mul(SEED_MULTIPLIER).wrapping_add((i as u64).wrapping_mul(INDEX_MULTIPLIER));
        let start = (h % (cell_count as u64)) as usize;
        proof {
            assert(start == start_position(cell_count, seed, i));
        }
        let pos = first_free(&occupied, start, cell_count);
        let ghost before = positions@;
        proof {
            lemma_placements_step(cell_count, seed, i, pos);
            lemma_hash(seed, i, h);
            vstd::arithmetic::div_mod::lemma_mod_pos_bound(h as int, cell_count as int);
            lemma_probe_shape(occupied@, start, cell_count, cell_count as nat);
        }
        occupied.insert(pos);
        positions.push((i, pos));
        proof {
            let n = cell_count as int;
            let st = start as int;
            assert(st == agent_hash(seed, i as int) % n);
            let d = choose|d: int|
                0 <= d <= cell_count && pos == ring_cell(st, d, n) && forall|e: int|
                    0 <= e < d ==> #[trigger] held(prev.to_set(), ring_cell(st, e, n));
            assert forall|e: int| 0 <= e < d implies #[trigger] taken_before(
                positions@,
                i as int,
                ring_cell(st, e, n),
            ) by {
                vstd::arithmetic::div_mod::lemma_mod_pos_bound(st + e, n);
                let x = ((st + e) % n) as usize;
                assert(held(prev.to_set(), ring_cell(st, e, n)));
                assert(prev.to_set().contains(x));
                let k = choose|k: int| 0 <= k < prev.len() && prev[k] == x;
                assert(positions@[k] == before[k]);
                assert(positions@[k].1 == ring_cell(st, e, n));
            }
            if d == n {
                vstd::arithmetic::div_mod::lemma_mod_add_multiples_vanish(st, n);
                vstd::arithmetic::div_mod::lemma_small_mod(st as nat, n as nat);
                assert(held(prev.to_set(), ring_cell(st, 0, n)));
                assert(ring_cell(st, n, n) == st);
                assert(false);
            }
            assert(first_untaken_from(positions@, i as int, st, n));
            assert forall|k: int| 0 <= k < i + 1 implies #[trigger] first_untaken_from(
                positions@,
                k,
                agent_hash(seed, k) % n,
                n,
            ) by {
                if k < i {
                    assert(first_untaken_from(before, k, agent_hash(seed, k) % n, n));
                    let sk = agent_hash(seed, k) % n;
                    let dk = choose|dd: int|
                        0 <= dd < n && before[k].1 == ring_cell(sk, dd, n) && forall|e: int|
                            0 <= e < dd ==> #[trigger] taken_before(before, k, ring_cell(sk, e, n));
                    assert forall|e: int| 0 <= e < dk implies #[trigger] taken_before(
                        positions@,
                        k,
                        ring_cell(sk, e, n),
                    ) by {
                        assert(taken_before(before, k, ring_cell(sk, e, n)));
                        let kk = choose|kk: int| 0 <= kk < k && before[kk].1 == ring_cell(sk, e, n);
                        assert(positions@[kk] == before[kk]);
                    }
                    assert(positions@[k] == before[k]);
                }
            }
        }
        i = i + 1;
    }
    proof {
        let n = cell_count as int;
        assert forall|j: int|
            0 <= j < positions@.len() && (forall|k: int|
                0 <= k < j ==> positions@[k].1 != agent_hash(seed, j) % n) implies #[trigger] positions@[j].1
            == agent_hash(seed, j) % n by {
            assert(first_untaken_from(positions@, j, agent_hash(seed, j) % n, n));
            let s0 = agent_hash(seed, j) % n;
            let d = choose|d: int|
                0 <= d < n && positions@[j].1 == ring_cell(s0, d, n) && forall|e: int|
                    0 <= e < d ==> #[trigger] taken_before(positions@, j, ring_cell(s0, e, n));
            if d > 0 {
                assert(taken_before(positions@, j, ring_cell(s0, 0, n)));
                let k = choose|k: int| 0 <= k < j && positions@[k].1 == ring_cell(s0, 0, n);
                vstd::arithmetic::div_mod::lemma_mod_pos_bound(agent_hash(seed, j), n);
                vstd::arithmetic::div_mod::lemma_small_mod(s0 as nat, n as nat);
                assert(false);
            }
            vstd::arithmetic::div_mod::lemma_mod_pos_bound(agent_hash(seed, j), n);
            vstd::arithmetic::div_mod::lemma_small_mod(s0 as nat, n as nat);
        }
    }
    positions
}

} // verus!
