//! Values with several owners.

use std::sync::Arc;
use vstd::prelude::*;

verus! {

/// `Arc::clone`: another owner of the same value.
#[verifier::external_body]
pub(crate) fn share<T>(a: &Arc<T>) -> (r: Arc<T>)
    ensures
        r == *a,
{
    Arc::clone(a)
}

} // verus!
