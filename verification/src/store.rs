//! The durable tier as the cache sees it: a store of byte values under byte
//! keys with point reads and upserts, and a volatile store of that shape.

use vstd::prelude::*;
use crate::assoc::{as_map, distinct_keys, lemma_absent, lemma_found, lemma_put, put};
use crate::error::StoreIoError;

verus! {

/// A persistent store of byte values under byte keys.
///
/// Reads and writes are atomic for one key: a value is either absent or
/// wholly present. Either may fail; a read that succeeds tells the truth, a
/// write that succeeds has replaced the value under the key and nothing else,
/// and a write that fails has changed nothing.
pub trait KvTree {
    /// What the tree holds.
    spec fn contents(&self) -> Map<Seq<u8>, Seq<u8>>;

    /// Reads the value stored under exactly `key`.
    fn get(&self, key: &[u8]) -> (r: Result<Option<Vec<u8>>, StoreIoError>)
        ensures
            match r {
                Ok(Some(value)) => self.contents().contains_key(key@) && value@
                    == self.contents()[key@],
                Ok(None) => !self.contents().contains_key(key@),
                Err(_) => true,
            },
    ;

    /// Stores `value` under `key`, in place of what was stored there.
    fn insert(&mut self, key: &[u8], value: &[u8]) -> (r: Result<(), StoreIoError>)
        ensures
            match r {
                Ok(_) => final(self).contents() == old(self).contents().insert(key@, value@),
                Err(_) => final(self).contents() == old(self).contents(),
            },
    ;
}

/// One key and the value stored under it.
struct Slot {
    key: Vec<u8>,
    value: Vec<u8>,
}

/// The slots as pairs of a key and a value.
spec fn pairs(slots: Seq<Slot>) -> Seq<(Seq<u8>, Seq<u8>)> {
    Seq::new(slots.len(), |i: int| (slots[i].key@, slots[i].value@))
}

/// Compares two byte strings.
fn same_bytes(a: &[u8], b: &[u8]) -> (same: bool)
    ensures
        same == (a@ == b@),
{
    if a.len() != b.len() {
        return false;
    }
    let mut i: usize = 0;
    while i < a.len()
        invariant
            i <= a@.len(),
            a@.len() == b@.len(),
            a@.take(i as int) == b@.take(i as int),
        decreases a@.len() - i,
    {
        if a[i] != b[i] {
            return false;
        }
        i += 1;
        assert(a@.take(i as int) =~= a@.take(i - 1).push(a@[i - 1]));
        assert(b@.take(i as int) =~= b@.take(i - 1).push(b@[i - 1]));
    }
    assert(a@ =~= a@.take(i as int));
    assert(b@ =~= b@.take(i as int));
    true
}

/// Copies a byte string.
fn copy_bytes(bytes: &[u8]) -> (copy: Vec<u8>)
    ensures
        copy@ == bytes@,
{
    let mut copy: Vec<u8> = Vec::new();
    let mut i: usize = 0;
    while i < bytes.len()
        invariant
            i <= bytes@.len(),
            copy@ == bytes@.take(i as int),
        decreases bytes@.len() - i,
    {
        copy.push(bytes[i]);
        i += 1;
        assert(copy@ =~= bytes@.take(i as int));
    }
    assert(bytes@ =~= bytes@.take(i as int));
    copy
}

/// A store that lives in memory and never fails.
///
/// It outlives the cache built over it, which is what a restart of the cache
/// needs from a durable tier; it does not outlive the process.
pub struct MemoryTree {
    slots: Vec<Slot>,
}

impl MemoryTree {
    #[verifier::type_invariant]
    spec fn well_formed(&self) -> bool {
        distinct_keys(pairs(self.slots@))
    }

    /// An empty store.
    pub fn new() -> (tree: Self)
        ensures
            tree.contents() == Map::<Seq<u8>, Seq<u8>>::empty(),
    {
        let tree = MemoryTree { slots: Vec::new() };
        assert(tree.contents() =~= Map::<Seq<u8>, Seq<u8>>::empty());
        tree
    }

    /// Whether nothing is stored.
    pub fn is_empty(&self) -> (empty: bool)
        ensures
            empty == (self.contents() == Map::<Seq<u8>, Seq<u8>>::empty()),
    {
        proof {
            use_type_invariant(self);
            if self.slots@.len() > 0 {
                lemma_found(pairs(self.slots@), 0);
            } else {
                assert(self.contents() =~= Map::<Seq<u8>, Seq<u8>>::empty());
            }
        }
        self.slots.len() == 0
    }

    /// The position of the slot for `key`, or the number of slots if there is none.
    fn find(&self, key: &[u8]) -> (i: usize)
        ensures
            i <= self.slots@.len(),
            i < self.slots@.len() ==> pairs(self.slots@)[i as int].0 == key@,
            i == self.slots@.len() ==> forall|j: int|
                0 <= j < i ==> (#[trigger] pairs(self.slots@)[j]).0 != key@,
    {
        let mut i: usize = 0;
        while i < self.slots.len()
            invariant
                i <= self.slots@.len(),
                forall|j: int| 0 <= j < i ==> (#[trigger] pairs(self.slots@)[j]).0 != key@,
            decreases self.slots@.len() - i,
        {
            if same_bytes(self.slots[i].key.as_slice(), key) {
                return i;
            }
            i += 1;
        }
        i
    }
}

impl KvTree for MemoryTree {
    closed spec fn contents(&self) -> Map<Seq<u8>, Seq<u8>> {
        as_map(pairs(self.slots@))
    }

    fn get(&self, key: &[u8]) -> (r: Result<Option<Vec<u8>>, StoreIoError>)
        ensures
            r is Ok,
    {
        let i: usize = self.find(key);
        if i < self.slots.len() {
            proof {
                use_type_invariant(self);
                lemma_found(pairs(self.slots@), i as int);
            }
            Ok(Some(copy_bytes(self.slots[i].value.as_slice())))
        } else {
            proof {
                lemma_absent(pairs(self.slots@), key@);
            }
            Ok(None)
        }
    }

    fn insert(&mut self, key: &[u8], value: &[u8]) -> (r: Result<(), StoreIoError>)
        ensures
            r is Ok,
    {
        proof {
            use_type_invariant(&*self);
        }
        let i: usize = self.find(key);
        let ghost before = pairs(self.slots@);
        let ghost after = put(before, i as int, key@, value@);
        let slot = Slot { key: copy_bytes(key), value: copy_bytes(value) };
        let mut slots: Vec<Slot> = Vec::new();
        std::mem::swap(&mut self.slots, &mut slots);
        if i < slots.len() {
            slots.set(i, slot);
        } else {
            slots.push(slot);
        }
        proof {
            lemma_put(before, i as int, key@, value@);
            assert(pairs(slots@) =~= after);
        }
        self.slots = slots;
        Ok(())
    }
}

} // verus!
