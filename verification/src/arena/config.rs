//! Arena configuration parameters.
use vstd::prelude::*;

verus! {

/// Number of bytes `n` elements of type `T` occupy, saturating at `usize::MAX`.
pub open spec fn bytes_of<T>(n: nat) -> usize {
    if n * vstd::layout::size_of::<T>() <= usize::MAX {
        (n * vstd::layout::size_of::<T>()) as usize
    } else {
        usize::MAX
    }
}

/// Number of bytes `n` elements of type `T` occupy, saturating at `usize::MAX`.
pub fn elements_to_bytes<T>(n: usize) -> (b: usize)
    ensures
        b == bytes_of::<T>(n as nat),
{
    match n.checked_mul(core::mem::size_of::<T>()) {
        Some(b) => b,
        None => usize::MAX,
    }
}

/// `a + b`, saturating at `usize::MAX`.
pub open spec fn sat_add(a: usize, b: usize) -> usize {
    if a + b > usize::MAX {
        usize::MAX
    } else {
        (a + b) as usize
    }
}

/// Configuration for the arena allocator: segment sizing, capacity limits,
/// and generation retention.
#[derive(Clone, Debug)]
pub struct ArenaConfig {
    /// Size of each arena segment in elements. Must be a power of two and at least 1024.
    pub segment_size: u32,
    /// Maximum number of segments across all pools (per-tick A + B + sparse).
    pub max_segments: u16,
    /// How many generations a handle remains valid after creation.
    pub max_generation_age: u32,
    /// Number of cells in the simulation grid.
    pub cell_count: u32,
}

/// Default segment size: 16M elements (64MB of 4-byte cells).
pub const DEFAULT_SEGMENT_SIZE: u32 = 16_777_216;

/// Default maximum segment count.
pub const DEFAULT_MAX_SEGMENTS: u16 = 16;

/// Default generation age for Lockstep mode.
pub const DEFAULT_MAX_GENERATION_AGE: u32 = 1;

impl ArenaConfig {
    /// Create a new arena config for the given cell count, with default
    /// values for all other parameters.
    pub fn new(cell_count: u32) -> (c: Self)
        ensures
            c.segment_size == DEFAULT_SEGMENT_SIZE,
            c.max_segments == DEFAULT_MAX_SEGMENTS,
            c.max_generation_age == DEFAULT_MAX_GENERATION_AGE,
            c.cell_count == cell_count,
    {
        ArenaConfig {
            segment_size: DEFAULT_SEGMENT_SIZE,
            max_segments: DEFAULT_MAX_SEGMENTS,
            max_generation_age: DEFAULT_MAX_GENERATION_AGE,
            cell_count,
        }
    }

    /// Total capacity of a single segment in bytes, for 4-byte cells
    /// (`segment_size * 4`, saturating at `usize::MAX`).
    pub fn segment_bytes(&self) -> (b: usize)
        ensures
            self.segment_size * 4 <= usize::MAX ==> b == self.segment_size * 4,
            self.segment_size * 4 > usize::MAX ==> b == usize::MAX,
    {
        match (self.segment_size as usize).checked_mul(4) {
            Some(b) => b,
            None => usize::MAX,
        }
    }
}

impl Default for ArenaConfig {
    fn default() -> (c: Self)
        ensures
            c.segment_size == DEFAULT_SEGMENT_SIZE,
            c.max_segments == DEFAULT_MAX_SEGMENTS,
            c.max_generation_age == DEFAULT_MAX_GENERATION_AGE,
            c.cell_count == 0,
    {
        Self::new(0)
    }
}

} // verus!
