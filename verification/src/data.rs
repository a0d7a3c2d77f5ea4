//! The cache over both tiers: lookup with read-through promotion, store with
//! write-through for singleton keys.

use std::sync::Arc;
use vstd::prelude::*;
use crate::cache::AuthChainCache;
use crate::chain::share;
use crate::codec::{chain_bytes, chain_of_bytes, decode_chain, encode_chain, encode_id, well_framed};
use crate::error::{Error, StoreIoError};
use crate::store::KvTree;
use crate::tiers::{durable_key, Tiers};

verus! {

/// The ids of a chain that a lookup found, if it found one.
pub open spec fn found_ids(found: Option<Arc<[u64]>>) -> Option<Seq<u64>> {
    match found {
        Some(chain) => Some((*chain)@),
        None => None,
    }
}

/// The durable key of `key`: the encoding of its id if it is a singleton,
/// nothing for a key of any other length.
pub fn encode_key(key: &[u64]) -> (r: Option<[u8; 8]>)
    ensures
        match r {
            Some(bytes) => durable_key(key@) == Some(bytes@),
            None => durable_key(key@) is None,
        },
{
    if key.len() == 1 {
        Some(encode_id(key[0]))
    } else {
        None
    }
}

/// The write that a store of `chain` under `key` owes to the durable tier:
/// the encoded id and the encoded chain for a singleton key, nothing for a
/// key of any other length.
pub fn durable_entry(key: &[u64], chain: &[u64]) -> (r: Option<([u8; 8], Vec<u8>)>)
    ensures
        match r {
            Some((bytes, value)) => durable_key(key@) == Some(bytes@) && value@ == chain_bytes(
                chain@,
            ),
            None => durable_key(key@) is None,
        },
{
    match encode_key(key) {
        Some(bytes) => Some((bytes, encode_chain(chain))),
        None => None,
    }
}

impl AuthChainCache {
    /// Finishes the lookup of the singleton key `[id]` that missed in memory,
    /// given what the read of the durable tier came back with.
    ///
    /// A value made of whole ids is decoded, cached in memory under `[id]` and
    /// returned. An absent value is a miss. A failed read is handed on
    /// unchanged, and a value of any other length is reported as corrupt; in
    /// neither case is anything cached.
    pub fn promote(&mut self, id: u64, fetched: Result<Option<Vec<u8>>, StoreIoError>) -> (r:
        Result<Option<Arc<[u64]>>, Error>)
        ensures
            match fetched {
                Err(e) => r == Err::<Option<Arc<[u64]>>, Error>(Error::StoreIo(e)) && final(self)@
                    == old(self)@,
                Ok(None) => r == Ok::<Option<Arc<[u64]>>, Error>(None) && final(self)@ == old(
                    self,
                )@,
                Ok(Some(value)) => if well_framed(value@) {
                    &&& r matches Ok(Some(chain))
                    &&& (*chain)@ == chain_of_bytes(value@)
                    &&& final(self)@ == old(self)@.insert(seq![id], chain_of_bytes(value@))
                } else {
                    &&& r == Err::<Option<Arc<[u64]>>, Error>(Error::CorruptEncoding)
                    &&& final(self)@ == old(self)@
                },
            },
    {
        match fetched {
            Err(e) => Err(Error::StoreIo(e)),
            Ok(None) => Ok(None),
            Ok(Some(value)) => match decode_chain(value.as_slice()) {
                Err(e) => Err(e),
                Ok(ids) => {
                    let chain = share(ids);
                    let mut key: Vec<u64> = Vec::new();
                    key.push(id);
                    assert(key@ =~= seq![id]);
                    self.insert(key, crate::chain::another(&chain));
                    Ok(Some(chain))
                },
            },
        }
    }

    /// Finishes a store, given what the write to the durable tier came back
    /// with: the chain is cached in memory whether or not the write
    /// succeeded, and a failed write is handed on unchanged.
    pub fn complete_store(
        &mut self,
        key: Vec<u64>,
        chain: Arc<[u64]>,
        written: Result<(), StoreIoError>,
    ) -> (r: Result<(), Error>)
        ensures
            final(self)@ == old(self)@.insert(key@, (*chain)@),
            match written {
                Ok(_) => r is Ok,
                Err(e) => r == Err::<(), Error>(Error::StoreIo(e)),
            },
    {
        self.insert(key, chain);
        match written {
            Ok(_) => Ok(()),
            Err(e) => Err(Error::StoreIo(e)),
        }
    }
}

/// The cache as its callers see it.
pub trait Data: Send + Sync {
    /// What both tiers hold.
    spec fn tiers(&self) -> Tiers;

    /// Looks up the chain cached for `shorteventid`.
    ///
    /// A chain in memory, or one promoted from the durable tier, is returned;
    /// a miss is `None`. The durable tier is asked only for a singleton key
    /// that memory does not hold, and only then can the lookup fail: when
    /// the read fails, or when the value read is not made of whole ids.
    /// Nothing is ever written to the durable tier.
    fn get_cached_eventid_authchain(&mut self, shorteventid: &[u64]) -> (r: Result<
        Option<Arc<[u64]>>,
        Error,
    >)
        ensures
            match r {
                Ok(found) => {
                    &&& found_ids(found) == old(self).tiers().cached(shorteventid@)
                    &&& !old(self).tiers().corrupt(shorteventid@)
                    &&& final(self).tiers() == old(self).tiers().promoted(shorteventid@)
                },
                Err(Error::CorruptEncoding) => {
                    &&& old(self).tiers().corrupt(shorteventid@)
                    &&& final(self).tiers() == old(self).tiers()
                },
                Err(Error::StoreIo(_)) => {
                    &&& old(self).tiers().probes_durable(shorteventid@)
                    &&& final(self).tiers() == old(self).tiers()
                },
            },
            !old(self).tiers().probes_durable(shorteventid@) ==> r is Ok,
    ;

    /// Caches `auth_chain` for `shorteventid`.
    ///
    /// The chain is always cached in memory. For a singleton key its encoding
    /// is first written to the durable tier; only that write can fail, and
    /// its failure is reported after the chain has been cached in memory.
    fn cache_auth_chain(&mut self, shorteventid: Vec<u64>, auth_chain: Arc<[u64]>) -> (r: Result<
        (),
        Error,
    >)
        ensures
            match r {
                Ok(_) => final(self).tiers() == old(self).tiers().stored(
                    shorteventid@,
                    (*auth_chain)@,
                ),
                Err(e) => {
                    &&& e is StoreIo
                    &&& shorteventid@.len() == 1
                    &&& final(self).tiers() == old(self).tiers().remembered(
                        shorteventid@,
                        (*auth_chain)@,
                    )
                },
            },
            shorteventid@.len() != 1 ==> r is Ok,
    ;
}

/// The cache: an in-memory tier over a durable tree.
pub struct KeyValueDatabase<T: KvTree> {
    /// The durable tier: encoded chains under encoded singleton keys.
    pub shorteventid_authchain: T,
    /// The in-memory tier: chains under keys of any length.
    pub auth_chain_cache: AuthChainCache,
}

impl<T: KvTree> KeyValueDatabase<T> {
    /// A cache with an empty in-memory tier over `tree`.
    pub fn new(tree: T) -> (db: Self)
        ensures
            db.shorteventid_authchain == tree,
            db.auth_chain_cache@ == Map::<Seq<u64>, Seq<u64>>::empty(),
    {
        KeyValueDatabase { shorteventid_authchain: tree, auth_chain_cache: AuthChainCache::new() }
    }
}

impl<T: KvTree + Send + Sync> Data for KeyValueDatabase<T> {
    open spec fn tiers(&self) -> Tiers {
        Tiers { memory: self.auth_chain_cache@, durable: self.shorteventid_authchain.contents() }
    }

    fn get_cached_eventid_authchain(&mut self, key: &[u64]) -> (r: Result<
        Option<Arc<[u64]>>,
        Error,
    >) {
        if let Some(chain) = self.auth_chain_cache.get(key) {
            return Ok(Some(chain));
        }
        match encode_key(key) {
            None => Ok(None),
            Some(bytes) => {
                let fetched = self.shorteventid_authchain.get(bytes.as_slice());
                assert(key@ =~= seq![key@[0]]);
                self.auth_chain_cache.promote(key[0], fetched)
            },
        }
    }

    fn cache_auth_chain(&mut self, key: Vec<u64>, auth_chain: Arc<[u64]>) -> (r: Result<(), Error>) {
        let written = match durable_entry(key.as_slice(), &*auth_chain) {
            Some((bytes, value)) => self.shorteventid_authchain.insert(
                bytes.as_slice(),
                value.as_slice(),
            ),
            None => Ok(()),
        };
        self.auth_chain_cache.complete_store(key, auth_chain, written)
    }
}

} // verus!
