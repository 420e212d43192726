//! Shared handles: what the caches hand out is held by reference count, so
//! that a value decoded once can be held from many places.

use vstd::prelude::*;
use std::sync::Arc;

verus! {

/// `Arc::clone` of std makes another handle to the same allocation: the new
/// handle holds the value that the given one holds.
#[verifier::external_body]
pub(crate) fn share<T>(a: &Arc<T>) -> (r: Arc<T>)
    ensures
        r == *a,
{
    Arc::clone(a)
}

} // verus!
