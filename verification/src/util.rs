//! Sharing of values that never change.

use std::sync::Arc;
use vstd::prelude::*;

verus! {

/// `Arc::clone`: a second handle on the value that `a` holds. The contract
/// says that both handles hold the same value.
#[verifier::external_body]
pub(crate) fn share<T>(a: &Arc<T>) -> (r: Arc<T>)
    ensures
        r == *a,
{
    Arc::clone(a)
}

} // verus!
