//! Sharing reference-counted values.
use std::sync::Arc;
use vstd::prelude::*;

verus! {

/// Calls `Arc::clone`, which makes another pointer to the same allocation: the
/// contract claims that both pointers lead to the same value.
#[verifier::external_body]
pub(crate) fn share<T>(value: &Arc<T>) -> (r: Arc<T>)
    ensures
        r == *value,
{
    value.clone()
}

/// Calls `Arc::try_unwrap`, which hands out the value where there is no other pointer to it, and
/// the pointer itself where there is one.
#[verifier::external_body]
pub(crate) fn take<T>(value: Arc<T>) -> (r: Result<T, Arc<T>>)
    ensures
        match r {
            Ok(own) => own == *value,
            Err(shared) => shared == value,
        },
{
    Arc::try_unwrap(value)
}

} // verus!
