//! The in-memory tier: a map from keys of any length to shared chains.

use std::sync::Arc;
use vstd::prelude::*;
use crate::assoc::{as_map, distinct_keys, lemma_absent, lemma_found, lemma_put, put};
use crate::chain::another;

verus! {

/// One key and the chain cached for it.
struct Entry {
    key: Vec<u64>,
    chain: Arc<[u64]>,
}

/// The entries as pairs of a key and the ids of its chain.
spec fn pairs(entries: Seq<Entry>) -> Seq<(Seq<u64>, Seq<u64>)> {
    Seq::new(entries.len(), |i: int| (entries[i].key@, (*entries[i].chain)@))
}

/// Compares two keys id by id: order matters.
pub fn same_key(a: &[u64], b: &[u64]) -> (same: bool)
    ensures
        same == (a@ == b@),
{
    if a.len() != b.len() {
        return false;
    }
    let mut i: usize = 0;
    while i < a.len()
        invariant
            i <= a@.len(),
            a@.len() == b@.len(),
            a@.take(i as int) == b@.take(i as int),
        decreases a@.len() - i,
    {
        if a[i] != b[i] {
            return false;
        }
        i += 1;
        assert(a@.take(i as int) =~= a@.take(i - 1).push(a@[i - 1]));
        assert(b@.take(i as int) =~= b@.take(i - 1).push(b@[i - 1]));
    }
    assert(a@ =~= a@.take(i as int));
    assert(b@ =~= b@.take(i as int));
    true
}

/// The in-memory tier of the cache.
///
/// It maps a key, an ordered sequence of short event ids, to the chain cached
/// for it. Keys are compared id by id, so `[a, b]` and `[b, a]` are different
/// keys. Nothing is ever evicted.
pub struct AuthChainCache {
    entries: Vec<Entry>,
}

impl View for AuthChainCache {
    type V = Map<Seq<u64>, Seq<u64>>;

    closed spec fn view(&self) -> Map<Seq<u64>, Seq<u64>> {
        as_map(pairs(self.entries@))
    }
}

impl AuthChainCache {
    #[verifier::type_invariant]
    spec fn well_formed(&self) -> bool {
        distinct_keys(pairs(self.entries@))
    }

    /// An empty tier.
    pub fn new() -> (cache: Self)
        ensures
            cache@ == Map::<Seq<u64>, Seq<u64>>::empty(),
    {
        let cache = AuthChainCache { entries: Vec::new() };
        assert(cache@ =~= Map::<Seq<u64>, Seq<u64>>::empty());
        cache
    }

    /// The position of the entry for `key`, or the number of entries if there is none.
    fn find(&self, key: &[u64]) -> (i: usize)
        ensures
            i <= self.entries@.len(),
            i < self.entries@.len() ==> pairs(self.entries@)[i as int].0 == key@,
            i == self.entries@.len() ==> forall|j: int|
                0 <= j < i ==> (#[trigger] pairs(self.entries@)[j]).0 != key@,
    {
        let mut i: usize = 0;
        while i < self.entries.len()
            invariant
                i <= self.entries@.len(),
                forall|j: int| 0 <= j < i ==> (#[trigger] pairs(self.entries@)[j]).0 != key@,
            decreases self.entries@.len() - i,
        {
            if same_key(self.entries[i].key.as_slice(), key) {
                return i;
            }
            i += 1;
        }
        i
    }

    /// The chain cached for exactly this key, if there is one.
    pub fn get(&self, key: &[u64]) -> (found: Option<Arc<[u64]>>)
        ensures
            match found {
                Some(chain) => self@.contains_key(key@) && (*chain)@ == self@[key@],
                None => !self@.contains_key(key@),
            },
    {
        let i: usize = self.find(key);
        if i < self.entries.len() {
            proof {
                use_type_invariant(self);
                lemma_found(pairs(self.entries@), i as int);
            }
            Some(another(&self.entries[i].chain))
        } else {
            proof {
                lemma_absent(pairs(self.entries@), key@);
            }
            None
        }
    }

    /// Caches `chain` for `key`, in place of what was cached for it before.
    pub fn insert(&mut self, key: Vec<u64>, chain: Arc<[u64]>)
        ensures
            final(self)@ == old(self)@.insert(key@, (*chain)@),
    {
        proof {
            use_type_invariant(&*self);
        }
        let i: usize = self.find(key.as_slice());
        let ghost before = pairs(self.entries@);
        let ghost after = put(before, i as int, key@, (*chain)@);
        let mut entries: Vec<Entry> = Vec::new();
        std::mem::swap(&mut self.entries, &mut entries);
        if i < entries.len() {
            entries.set(i, Entry { key, chain });
        } else {
            entries.push(Entry { key, chain });
        }
        proof {
            lemma_put(before, i as int, key@, (*chain)@);
            assert(pairs(entries@) =~= after);
        }
        self.entries = entries;
    }
}

} // verus!
