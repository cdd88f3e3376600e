//! Entity manifest: the homogeneous property schema of the entities of a world.
use vstd::prelude::*;

use crate::error::EntityManifestError;
use crate::id::PropertyIndex;

verus! {

/// Declares the property schema shared by every entity in a world.
///
/// `alive_property` is the single source of truth for liveness. `V` is the
/// type of a property value.
#[derive(Clone, Debug, PartialEq)]
pub struct EntityManifest<V> {
    /// Human-readable property names.
    pub property_names: Vec<String>,
    /// Default values applied to each property at spawn.
    pub property_defaults: Vec<V>,
    /// Property index used as the alive flag.
    pub alive_property: PropertyIndex,
}

impl<V> EntityManifest<V> {
    /// A manifest is valid when names and defaults have the same nonzero
    /// length and the alive property indexes into them.
    pub open spec fn is_valid(&self) -> bool {
        &&& self.property_names.len() == self.property_defaults.len()
        &&& self.property_defaults.len() > 0
        &&& self.alive_property.0 < self.property_defaults.len()
    }

    /// Number of properties in the manifest.
    pub fn property_count(&self) -> (n: usize)
        ensures
            n == self.property_defaults.len(),
    {
        self.property_defaults.len()
    }

    /// Validate the manifest shape; the first failing check is reported.
    pub fn validate(&self) -> (r: Result<(), EntityManifestError>)
        ensures
            r is Ok <==> self.is_valid(),
            self.property_names.len() != self.property_defaults.len() ==> r == Err::<(), _>(
                EntityManifestError::PropertyLengthMismatch {
                    names: self.property_names.len(),
                    defaults: self.property_defaults.len(),
                },
            ),
            self.property_names.len() == self.property_defaults.len()
                && self.property_defaults.len() == 0 ==> r == Err::<(), _>(
                EntityManifestError::EmptyProperties,
            ),
            self.property_names.len() == self.property_defaults.len()
                && self.property_defaults.len() > 0 && self.alive_property.0
                >= self.property_defaults.len() ==> r == Err::<(), _>(
                EntityManifestError::AlivePropertyOutOfRange {
                    alive_property: self.alive_property,
                    property_count: self.property_defaults.len(),
                },
            ),
    {
        if self.property_names.len() != self.property_defaults.len() {
            return Err(
                EntityManifestError::PropertyLengthMismatch {
                    names: self.property_names.len(),
                    defaults: self.property_defaults.len(),
                },
            );
        }
        if self.property_defaults.len() == 0 {
            return Err(EntityManifestError::EmptyProperties);
        }
        if self.alive_property.0 as usize >= self.property_defaults.len() {
            return Err(
                EntityManifestError::AlivePropertyOutOfRange {
                    alive_property: self.alive_property,
                    property_count: self.property_defaults.len(),
                },
            );
        }
        Ok(())
    }
}

} // verus!
