//! The two tiers as one mathematical state, what a lookup and a store make of
//! it, and the laws that hold between them.

use vstd::prelude::*;
use crate::codec::{
    chain_bytes,
    chain_of_bytes,
    id_bytes,
    lemma_chain_round_trip,
    lemma_id_bytes_injective,
    well_framed,
};

verus! {

/// The contents of both tiers.
pub struct Tiers {
    /// The in-memory tier: chains by key, for keys of any length.
    pub memory: Map<Seq<u64>, Seq<u64>>,
    /// The durable tier: values by key, both as bytes.
    pub durable: Map<Seq<u8>, Seq<u8>>,
}

/// The durable key of a cache key: singleton keys have one, the encoding of
/// their only id; no other key is ever persisted.
pub open spec fn durable_key(key: Seq<u64>) -> Option<Seq<u8>> {
    if key.len() == 1 {
        Some(id_bytes(key[0]))
    } else {
        None
    }
}

impl Tiers {
    /// Whether a lookup of `key` has to ask the durable tier: the key is a
    /// singleton and the in-memory tier has nothing for it.
    pub open spec fn probes_durable(self, key: Seq<u64>) -> bool {
        !self.memory.contains_key(key) && key.len() == 1
    }

    /// The durable value that a lookup of `key` reads, if it reads one.
    pub open spec fn durable_value(self, key: Seq<u64>) -> Option<Seq<u8>> {
        if self.probes_durable(key) && self.durable.contains_key(id_bytes(key[0])) {
            Some(self.durable[id_bytes(key[0])])
        } else {
            None
        }
    }

    /// Whether a lookup of `key` reads a durable value that is not made of
    /// whole ids.
    pub open spec fn corrupt(self, key: Seq<u64>) -> bool {
        self.durable_value(key) matches Some(value) && !well_framed(value)
    }

    /// The chain cached for `key`: the one in memory, else the one that a
    /// well-framed durable value under a singleton key encodes.
    pub open spec fn cached(self, key: Seq<u64>) -> Option<Seq<u64>> {
        if self.memory.contains_key(key) {
            Some(self.memory[key])
        } else {
            match self.durable_value(key) {
                Some(value) => if well_framed(value) {
                    Some(chain_of_bytes(value))
                } else {
                    None
                },
                None => None,
            }
        }
    }

    /// The tiers after a lookup of `key` that found a chain in the durable
    /// tier only: the chain has been promoted into memory. Any other lookup
    /// leaves the tiers as they are.
    pub open spec fn promoted(self, key: Seq<u64>) -> Tiers {
        match self.cached(key) {
            Some(chain) => if self.memory.contains_key(key) {
                self
            } else {
                Tiers { memory: self.memory.insert(key, chain), durable: self.durable }
            },
            None => self,
        }
    }

    /// The tiers after `chain` was cached for `key` in memory alone.
    pub open spec fn remembered(self, key: Seq<u64>, chain: Seq<u64>) -> Tiers {
        Tiers { memory: self.memory.insert(key, chain), durable: self.durable }
    }

    /// The tiers after a store of `chain` for `key` that succeeded: the chain
    /// is in memory, and for a singleton key its encoding is in the durable
    /// tier.
    pub open spec fn stored(self, key: Seq<u64>, chain: Seq<u64>) -> Tiers {
        Tiers {
            memory: self.memory.insert(key, chain),
            durable: match durable_key(key) {
                Some(bytes) => self.durable.insert(bytes, chain_bytes(chain)),
                None => self.durable,
            },
        }
    }

    /// The tiers of a fresh cache over the same durable tier.
    pub open spec fn restarted(self) -> Tiers {
        Tiers { memory: Map::empty(), durable: self.durable }
    }

    /// Whether the tiers agree: where both hold something for a singleton
    /// key, the durable value is well framed and encodes the chain in memory.
    pub open spec fn coherent(self) -> bool {
        forall|key: Seq<u64>|
            #![trigger self.memory.contains_key(key)]
            self.memory.contains_key(key) && key.len() == 1 && self.durable.contains_key(
                id_bytes(key[0]),
            ) ==> well_framed(self.durable[id_bytes(key[0])]) && self.memory[key] == chain_of_bytes(
                self.durable[id_bytes(key[0])],
            )
    }
}

/// A chain stored under a singleton key is found again, in the same cache and
/// in a fresh one over the same durable tier, and the fresh cache promotes it.
pub proof fn lemma_singleton_survives_restart(tiers: Tiers, key: Seq<u64>, chain: Seq<u64>)
    requires
        key.len() == 1,
    ensures
        tiers.stored(key, chain).cached(key) == Some(chain),
        tiers.stored(key, chain).restarted().cached(key) == Some(chain),
        !tiers.stored(key, chain).restarted().corrupt(key),
        tiers.stored(key, chain).restarted().promoted(key).memory == Map::<
            Seq<u64>,
            Seq<u64>,
        >::empty().insert(key, chain),
{
    lemma_chain_round_trip(chain);
}

/// A chain stored under a key of any other length is found in the same cache
/// but not in a fresh one: such a key never reaches the durable tier.
pub proof fn lemma_composite_lost_on_restart(tiers: Tiers, key: Seq<u64>, chain: Seq<u64>)
    requires
        key.len() != 1,
    ensures
        tiers.stored(key, chain).cached(key) == Some(chain),
        tiers.stored(key, chain).durable == tiers.durable,
        tiers.stored(key, chain).restarted().cached(key) == None::<Seq<u64>>,
        tiers.stored(key, chain).restarted().promoted(key) == tiers.stored(key, chain).restarted(),
{
}

/// Storing the same chain under the same key a second time changes nothing,
/// and the chain is what a lookup then finds.
pub proof fn lemma_store_idempotent(tiers: Tiers, key: Seq<u64>, chain: Seq<u64>)
    ensures
        tiers.stored(key, chain).stored(key, chain) == tiers.stored(key, chain),
        tiers.stored(key, chain).stored(key, chain).cached(key) == Some(chain),
        tiers.stored(key, chain).stored(key, chain).promoted(key) == tiers.stored(key, chain),
{
    let once = tiers.stored(key, chain);
    let twice = once.stored(key, chain);
    assert(twice.memory =~= once.memory);
    assert(twice.durable =~= once.durable);
}

/// A durable value that is not made of whole ids is never taken for a chain,
/// and a lookup that reads it promotes nothing.
pub proof fn lemma_corrupt_never_cached(tiers: Tiers, key: Seq<u64>)
    requires
        tiers.corrupt(key),
    ensures
        tiers.cached(key) == None::<Seq<u64>>,
        tiers.promoted(key) == tiers,
{
}

/// A lookup finds what it promotes: after it, the chain is in memory, and a
/// second lookup finds the same chain without asking the durable tier.
pub proof fn lemma_lookup_promotes(tiers: Tiers, key: Seq<u64>)
    requires
        tiers.cached(key) is Some,
    ensures
        tiers.promoted(key).memory.contains_key(key),
        tiers.promoted(key).cached(key) == tiers.cached(key),
        !tiers.promoted(key).probes_durable(key),
        tiers.promoted(key).durable == tiers.durable,
{
}

/// Neither a lookup nor a store takes a key out of the in-memory tier.
pub proof fn lemma_memory_never_shrinks(tiers: Tiers, key: Seq<u64>, chain: Seq<u64>)
    ensures
        tiers.memory.dom().subset_of(tiers.promoted(key).memory.dom()),
        tiers.memory.dom().subset_of(tiers.remembered(key, chain).memory.dom()),
        tiers.memory.dom().subset_of(tiers.stored(key, chain).memory.dom()),
{
}

/// Tiers that agree still agree after a lookup, after a store that succeeded,
/// and in a fresh cache over the same durable tier.
pub proof fn lemma_coherence_kept(tiers: Tiers, key: Seq<u64>, chain: Seq<u64>)
    requires
        tiers.coherent(),
    ensures
        tiers.promoted(key).coherent(),
        tiers.stored(key, chain).coherent(),
        tiers.restarted().coherent(),
{
    let after = tiers.stored(key, chain);
    assert forall|other: Seq<u64>|
        after.memory.contains_key(other) && other.len() == 1 && after.durable.contains_key(
            id_bytes(other[0]),
        ) implies well_framed(after.durable[id_bytes(other[0])]) && after.memory[other]
        == chain_of_bytes(after.durable[id_bytes(other[0])]) by {
        lemma_chain_round_trip(chain);
        if other != key {
            assert(tiers.memory.contains_key(other));
            if key.len() == 1 {
                if id_bytes(other[0]) == id_bytes(key[0]) {
                    lemma_id_bytes_injective(other[0], key[0]);
                    assert(other =~= key);
                }
            }
        }
    }
    let looked = tiers.promoted(key);
    assert forall|other: Seq<u64>|
        looked.memory.contains_key(other) && other.len() == 1 && looked.durable.contains_key(
            id_bytes(other[0]),
        ) implies well_framed(looked.durable[id_bytes(other[0])]) && looked.memory[other]
        == chain_of_bytes(looked.durable[id_bytes(other[0])]) by {
        if other != key {
            assert(tiers.memory.contains_key(other));
        }
    }
}

} // verus!
