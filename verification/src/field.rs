//! Field types, boundary and mutability classes, and field definitions.
use vstd::prelude::*;

verus! {

/// Classification of a field's data type.
#[derive(Clone, Debug, PartialEq, Eq, Structural)]
pub enum FieldType {
    /// A single value per cell.
    Scalar,
    /// A fixed-size vector of values per cell.
    Vector {
        /// Number of components in the vector (e.g. 3 for velocity).
        dims: u32,
    },
    /// A categorical (discrete) value per cell, stored as a single index.
    Categorical {
        /// Number of possible categories.
        n_values: u32,
    },
}

impl FieldType {
    /// Number of storage slots this field type requires per cell.
    pub open spec fn components_spec(&self) -> u32 {
        match self {
            FieldType::Scalar => 1,
            FieldType::Vector { dims } => *dims,
            FieldType::Categorical { .. } => 1,
        }
    }

    /// Returns the number of storage slots this field type requires per cell.
    pub fn components(&self) -> (c: u32)
        ensures
            c == self.components_spec(),
    {
        match self {
            FieldType::Scalar => 1,
            FieldType::Vector { dims } => *dims,
            FieldType::Categorical { .. } => 1,
        }
    }
}

/// Boundary behavior when field values exceed declared bounds.
#[derive(Clone, Copy, Debug, PartialEq, Eq, Structural)]
pub enum BoundaryBehavior {
    /// Clamp the value to the nearest bound.
    Clamp,
    /// Reflect the value off the bound.
    Reflect,
    /// Absorb at the boundary (value is set to the bound).
    Absorb,
    /// Wrap around to the opposite bound.
    Wrap,
}

/// How a field's allocation is managed across ticks.
#[derive(Clone, Copy, Debug, PartialEq, Eq, Structural)]
pub enum FieldMutability {
    /// Generation 0 forever; shared across all snapshots.
    Static,
    /// New allocation each tick.
    PerTick,
    /// New allocation only when modified; shared until mutation.
    Sparse,
}

/// Definition of a field registered in a simulation world: what the arena
/// reads of it (its name, type and mutability class) and how values that
/// leave their bounds are treated.
#[derive(Clone, Debug)]
pub struct FieldDef {
    /// Human-readable name for debugging and logging.
    pub name: String,
    /// Data type and dimensionality.
    pub field_type: FieldType,
    /// Allocation strategy across ticks.
    pub mutability: FieldMutability,
    /// Optional unit annotation (e.g. `"meters/sec"`).
    pub units: Option<String>,
    /// Behavior when values exceed declared bounds.
    pub boundary_behavior: BoundaryBehavior,
}

} // verus!
