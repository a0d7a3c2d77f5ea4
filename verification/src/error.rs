//! What can go wrong between the cache and its durable tier.

use vstd::prelude::*;

verus! {

/// A failed read or write of the durable tier, as the store reported it.
#[derive(Debug, Clone, PartialEq, Eq)]
pub struct StoreIoError {
    pub message: String,
}

/// Why a lookup or a store did not succeed.
#[derive(Debug, Clone, PartialEq, Eq)]
pub enum Error {
    /// The durable tier failed; its error is handed on unchanged.
    StoreIo(StoreIoError),
    /// A durable value does not consist of whole eight-byte ids.
    CorruptEncoding,
}

} // verus!
