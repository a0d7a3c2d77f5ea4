//! Auth chains as immutable, cheaply shared slices of short event ids.

use std::sync::Arc;
use vstd::prelude::*;

verus! {

/// An auth chain: once built it is only read, or replaced as a whole.
pub type AuthChain = Arc<[u64]>;

/// Moves the ids of `ids` into a shared chain.
///
/// Rests on `Arc::from` for a `Vec`: the new slice holds the vector's items in
/// the vector's order.
#[verifier::external_body]
pub(crate) fn share(ids: Vec<u64>) -> (chain: Arc<[u64]>)
    ensures
        (*chain)@ == ids@,
{
    Arc::from(ids)
}

/// Hands out another handle to the same chain.
///
/// Rests on `Arc::clone`: the new pointer refers to the allocation that
/// `chain` refers to, so both read the same ids.
#[verifier::external_body]
pub(crate) fn another(chain: &Arc<[u64]>) -> (handle: Arc<[u64]>)
    ensures
        handle == *chain,
{
    Arc::clone(chain)
}

} // verus!
