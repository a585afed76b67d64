//! Values that several owners share.
use vstd::prelude::*;

use std::sync::Arc;

verus! {

/// Calls `Arc::clone`, which makes another pointer to the same value.
#[verifier::external_body]
pub(crate) fn share<T>(value: &Arc<T>) -> (res: Arc<T>)
    ensures
        res == *value,
{
    Arc::clone(value)
}

} // verus!
