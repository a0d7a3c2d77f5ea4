//! A two-tier cache from ordered sequences of short event ids to auth chains.
//!
//! A key is looked up in memory first. A singleton key that memory does not
//! hold is then looked up in a durable tree, where its chain is stored as
//! big-endian bytes, and what is found there is promoted into memory. A store
//! caches the chain in memory under any key, and writes it through to the
//! durable tree for singleton keys only.
//!
//! - [`codec`]: the byte encoding of ids and chains.
//! - [`chain`]: chains as shared slices.
//! - [`assoc`]: association lists and the maps they stand for.
//! - [`cache`]: the in-memory tier.
//! - [`store`]: the durable tier's interface, and a volatile tree.
//! - [`tiers`]: both tiers as one mathematical state, and the laws of lookup
//!   and store.
//! - [`data`]: the cache over both tiers.
//! - [`error`]: what can go wrong.

pub mod assoc;
pub mod cache;
pub mod chain;
pub mod codec;
pub mod data;
pub mod error;
pub mod store;
pub mod tiers;
