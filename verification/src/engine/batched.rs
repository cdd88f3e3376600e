//! Stepping a batch of worlds: its results, and the checks on a batch's
//! shape and on the buffers it is observed into.
use vstd::prelude::*;

use crate::engine::metrics::StepMetrics;
use crate::id::TickId;

verus! {

/// Result of stepping a batch of worlds.
pub struct BatchResult {
    /// Per-world tick IDs after stepping.
    pub tick_ids: Vec<TickId>,
    /// Per-world step metrics.
    pub metrics: Vec<StepMetrics>,
}

/// Why a batch of worlds is invalid or cannot be observed as asked.
#[derive(Clone, Copy, Debug, PartialEq, Eq, Structural)]
pub enum BatchShapeError {
    /// The batch has no world.
    NoWorlds,
    /// World `world` uses a space topology other than world 0's.
    TopologyMismatch {
        /// The first world whose topology differs.
        world: usize,
    },
    /// An observed field has another length (or is missing) in world
    /// `world` than in world 0.
    FieldSchemaMismatch {
        /// The observed entry whose field differs.
        entry: usize,
        /// The first world where it differs.
        world: usize,
    },
    /// No observation plan was compiled.
    NoObsPlan,
    /// The plan observes agent-relative regions, which batches do not support.
    AgentRelativePlan,
    /// The output buffer is smaller than the batch's observations.
    OutputTooSmall {
        /// The buffer's length.
        got: usize,
        /// The length the batch needs.
        needed: usize,
    },
    /// The mask buffer is smaller than the batch's masks.
    MaskTooSmall {
        /// The buffer's length.
        got: usize,
        /// The length the batch needs.
        needed: usize,
    },
}

/// Check that a batch has worlds and that every world shares world 0's
/// space topology; `same_as_first[k]` tells whether world `k + 1` does.
/// Reports the first world that differs.
pub fn batch_topology_error(n_worlds: usize, same_as_first: &[bool]) -> (r: Option<BatchShapeError>)
    requires
        n_worlds == 0 || same_as_first@.len() + 1 == n_worlds,
    ensures
        r == Some(BatchShapeError::NoWorlds) <==> n_worlds == 0,
        r is None <==> n_worlds > 0 && forall|k: int|
            0 <= k < same_as_first@.len() ==> #[trigger] same_as_first@[k],
        match r {
            Some(BatchShapeError::TopologyMismatch { world }) => {
                &&& n_worlds > 0
                &&& 1 <= world < n_worlds
                &&& !same_as_first@[world - 1]
                &&& forall|k: int| 0 <= k < world - 1 ==> #[trigger] same_as_first@[k]
            },
            Some(e) => e == BatchShapeError::NoWorlds,
            None => true,
        },
{
    if n_worlds == 0 {
        return Some(BatchShapeError::NoWorlds);
    }
    let n = same_as_first.len();
    let mut k: usize = 0;
    while k < n
        invariant
            n == same_as_first@.len(),
            n + 1 == n_worlds,
            k <= n,
            forall|j: int| 0 <= j < k ==> #[trigger] same_as_first@[j],
        decreases n - k,
    {
        if !same_as_first[k] {
            return Some(BatchShapeError::TopologyMismatch { world: k + 1 });
        }
        k = k + 1;
    }
    None
}

/// Check that every observed field has, in each world, the length
/// (`None`: missing) it has in world 0; `lens[e][w]` is entry `e`'s field
/// length in world `w`. Reports the first mismatch, entry by entry and
/// world by world.
pub fn field_schema_error(lens: &[Vec<Option<usize>>]) -> (r: Option<BatchShapeError>)
    requires
        forall|e: int| 0 <= e < lens@.len() ==> (#[trigger] lens@[e])@.len() > 0,
    ensures
        r is None <==> forall|e: int, w: int|
            0 <= e < lens@.len() && 0 <= w < lens@[e]@.len() ==> #[trigger] lens@[e]@[w]
                == lens@[e]@[0],
        match r {
            Some(BatchShapeError::FieldSchemaMismatch { entry, world }) => {
                &&& entry < lens@.len()
                &&& 1 <= world < lens@[entry as int]@.len()
                &&& lens@[entry as int]@[world as int] != lens@[entry as int]@[0]
                &&& forall|w: int| 0 <= w < world ==> #[trigger] lens@[entry as int]@[w] == lens@[entry as int]@[0]
                &&& forall|e: int, w: int|
                    0 <= e < entry && 0 <= w < lens@[e]@.len() ==> #[trigger] lens@[e]@[w] == lens@[e]@[0]
            },
            Some(_) => false,
            None => true,
        },
{
    let n = lens.len();
    let mut e: usize = 0;
    while e < n
        invariant
            n == lens@.len(),
            e <= n,
            forall|e2: int| 0 <= e2 < lens@.len() ==> (#[trigger] lens@[e2])@.len() > 0,
            forall|e2: int, w: int|
                0 <= e2 < e && 0 <= w < lens@[e2]@.len() ==> #[trigger] lens@[e2]@[w] == lens@[e2]@[0],
        decreases n - e,
    {
        let row = &lens[e];
        let m = row.len();
        let first = row[0];
        let mut w: usize = 1;
        while w < m
            invariant
                n == lens@.len(),
                e < n,
                *row == lens@[e as int],
                m == row@.len(),
                m > 0,
                first == row@[0],
                1 <= w <= m,
                forall|w2: int| 0 <= w2 < w ==> #[trigger] row@[w2] == first,
                forall|e2: int, w2: int|
                    0 <= e2 < e && 0 <= w2 < lens@[e2]@.len() ==> #[trigger] lens@[e2]@[w2] == lens@[e2]@[0],
            decreases m - w,
        {
            if row[w] != first {
                return Some(BatchShapeError::FieldSchemaMismatch { entry: e, world: w });
            }
            w = w + 1;
        }
        proof {
            assert forall|e2: int, w2: int|
                0 <= e2 < e + 1 && 0 <= w2 < lens@[e2]@.len() implies #[trigger] lens@[e2]@[w2]
                == lens@[e2]@[0] by {
                if e2 == e {
                    assert(row@[w2] == first);
                }
            }
        }
        e = e + 1;
    }
    None
}

/// Check the buffers a batch is observed into: a plan must be compiled
/// (`has_plan`) and observe no agent-relative region, and the output and
/// mask buffers must hold every world's observation (`out_per_world` and
/// `mask_per_world` elements each). Reports the first check that fails.
pub fn observe_buffer_error(
    has_plan: bool,
    agent_relative: bool,
    n_worlds: usize,
    out_per_world: usize,
    mask_per_world: usize,
    output_len: usize,
    mask_len: usize,
) -> (r: Option<BatchShapeError>)
    requires
        n_worlds * out_per_world <= usize::MAX,
        n_worlds * mask_per_world <= usize::MAX,
    ensures
        r == if !has_plan {
            Some(BatchShapeError::NoObsPlan)
        } else if agent_relative {
            Some(BatchShapeError::AgentRelativePlan)
        } else if output_len < n_worlds * out_per_world {
            Some(
                BatchShapeError::OutputTooSmall {
                    got: output_len,
                    needed: (n_worlds * out_per_world) as usize,
                },
            )
        } else if mask_len < n_worlds * mask_per_world {
            Some(
                BatchShapeError::MaskTooSmall {
                    got: mask_len,
                    needed: (n_worlds * mask_per_world) as usize,
                },
            )
        } else {
            None
        },
{
    if !has_plan {
        return Some(BatchShapeError::NoObsPlan);
    }
    if agent_relative {
        return Some(BatchShapeError::AgentRelativePlan);
    }
    let expected_out = n_worlds * out_per_world;
    let expected_mask = n_worlds * mask_per_world;
    if output_len < expected_out {
        return Some(BatchShapeError::OutputTooSmall { got: output_len, needed: expected_out });
    }
    if mask_len < expected_mask {
        return Some(BatchShapeError::MaskTooSmall { got: mask_len, needed: expected_mask });
    }
    None
}

} // verus!
