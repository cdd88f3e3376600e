//! Field handles and location descriptors.
use vstd::prelude::*;

verus! {

/// Describes which segment pool a [`FieldHandle`] points into.
#[derive(Clone, Copy, Debug, PartialEq, Eq, Structural)]
pub enum FieldLocation {
    /// In the current per-tick buffer (alternating A/B on ping-pong).
    PerTick {
        /// Index into the per-tick segment list.
        segment_index: u16,
    },
    /// In the dedicated sparse segment pool.
    Sparse {
        /// Index into the sparse segment list.
        segment_index: u16,
    },
    /// In the static arena (generation 0 forever).
    Static {
        /// Offset within the static arena's data.
        offset: u32,
        /// Length in elements.
        len: u32,
    },
}

/// Physical location of a field allocation within the arena. The
/// generation allows staleness checks without a lookup table.
#[derive(Clone, Copy, Debug, PartialEq, Eq, Structural)]
pub struct FieldHandle {
    /// Arena generation when this allocation was made.
    pub generation: u32,
    /// Offset within the target segment, in elements.
    pub offset: u32,
    /// Length of the allocation in elements.
    pub len: u32,
    /// Which pool and segment this handle points into.
    pub location: FieldLocation,
}

impl FieldHandle {
    /// Create a new handle.
    pub fn new(generation: u32, offset: u32, len: u32, location: FieldLocation) -> (h: Self)
        ensures
            h.generation == generation,
            h.offset == offset,
            h.len == len,
            h.location == location,
    {
        FieldHandle { generation, offset, len, location }
    }

    /// The generation this handle belongs to.
    pub fn generation(&self) -> (g: u32)
        ensures
            g == self.generation,
    {
        self.generation
    }

    /// Offset of the allocation within its segment, in elements.
    pub fn offset(&self) -> (o: u32)
        ensures
            o == self.offset,
    {
        self.offset
    }

    /// Length of the allocation in elements.
    pub fn len(&self) -> (l: u32)
        ensures
            l == self.len,
    {
        self.len
    }

    /// Whether this is a zero-length allocation.
    pub fn is_empty(&self) -> (b: bool)
        ensures
            b == (self.len == 0),
    {
        self.len == 0
    }

    /// The location descriptor.
    pub fn location(&self) -> (l: FieldLocation)
        ensures
            l == self.location,
    {
        self.location
    }
}

} // verus!
