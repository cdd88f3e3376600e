//! Shared ownership of immutable data.
use vstd::prelude::*;

use std::sync::Arc;

verus! {

/// Calls `Arc::clone`, which hands out another pointer to the same value:
/// the clone dereferences to what the initial does.
#[verifier::external_body]
pub(crate) fn arc_clone<T>(a: &Arc<T>) -> (r: Arc<T>)
    ensures
        *r == **a,
{
    Arc::clone(a)
}

} // verus!
