//! Association lists as mathematical objects: a sequence of key-value pairs
//! in which no key occurs twice, and the map that it stands for.
//!
//! Both tiers of the cache keep their entries in such a list; what is proved
//! here is what their lookups and updates rest on.

use vstd::prelude::*;

verus! {

/// Whether pair `i` of `pairs` is the one for `key`.
pub open spec fn keyed_at<K, V>(pairs: Seq<(K, V)>, key: K, i: int) -> bool {
    0 <= i < pairs.len() && pairs[i].0 == key
}

/// Whether some pair of `pairs` is for `key`.
pub open spec fn has_key<K, V>(pairs: Seq<(K, V)>, key: K) -> bool {
    exists|i: int| keyed_at(pairs, key, i)
}

/// The position of the pair for `key`, where there is one.
pub open spec fn position<K, V>(pairs: Seq<(K, V)>, key: K) -> int {
    choose|i: int| keyed_at(pairs, key, i)
}

/// No key has two pairs.
pub open spec fn distinct_keys<K, V>(pairs: Seq<(K, V)>) -> bool {
    forall|i: int, j: int| 0 <= i < j < pairs.len() ==> #[trigger] pairs[i].0 != #[trigger] pairs[j].0
}

/// The map that a list of pairs stands for.
pub open spec fn as_map<K, V>(pairs: Seq<(K, V)>) -> Map<K, V> {
    Map::new(|key: K| has_key(pairs, key), |key: K| pairs[position(pairs, key)].1)
}

/// The list with `(key, value)` written at `i`: over the pair that is there,
/// or behind the last pair.
pub open spec fn put<K, V>(pairs: Seq<(K, V)>, i: int, key: K, value: V) -> Seq<(K, V)> {
    if 0 <= i < pairs.len() {
        pairs.update(i, (key, value))
    } else {
        pairs.push((key, value))
    }
}

/// With distinct keys, the pair at `i` is the one that the map reads.
pub proof fn lemma_found<K, V>(pairs: Seq<(K, V)>, i: int)
    requires
        distinct_keys(pairs),
        0 <= i < pairs.len(),
    ensures
        position(pairs, pairs[i].0) == i,
        as_map(pairs).contains_key(pairs[i].0),
        as_map(pairs)[pairs[i].0] == pairs[i].1,
{
    assert(keyed_at(pairs, pairs[i].0, i));
}

/// A key that no pair carries is not in the map.
pub proof fn lemma_absent<K, V>(pairs: Seq<(K, V)>, key: K)
    requires
        forall|i: int| 0 <= i < pairs.len() ==> (#[trigger] pairs[i]).0 != key,
    ensures
        !as_map(pairs).contains_key(key),
{
    if has_key(pairs, key) {
        let i: int = position(pairs, key);
        assert(keyed_at(pairs, key, i));
    }
}

/// Writing `(key, value)` over the pair for `key`, or behind the last pair
/// when there is none, keeps the keys distinct and inserts into the map.
pub proof fn lemma_put<K, V>(pairs: Seq<(K, V)>, i: int, key: K, value: V)
    requires
        distinct_keys(pairs),
        0 <= i <= pairs.len(),
        i < pairs.len() ==> pairs[i].0 == key,
        i == pairs.len() ==> forall|j: int| 0 <= j < pairs.len() ==> (#[trigger] pairs[j]).0 != key,
    ensures
        distinct_keys(put(pairs, i, key, value)),
        as_map(put(pairs, i, key, value)) == as_map(pairs).insert(key, value),
{
    let after = put(pairs, i, key, value);
    assert forall|j: int| 0 <= j < pairs.len() implies (#[trigger] after[j]).0 == pairs[j].0 by {
        if j != i {
            assert(after[j] == pairs[j]);
        }
    }
    assert forall|a: int, b: int| 0 <= a < b < after.len() implies #[trigger] after[a].0
        != #[trigger] after[b].0 by {
        if b < pairs.len() {
            assert(pairs[a].0 != pairs[b].0);
        } else {
            assert(pairs[a].0 != key);
        }
    }
    lemma_found(after, i);
    assert forall|q: K| #[trigger] has_key(after, q) <==> (q == key || has_key(pairs, q)) by {
        if has_key(after, q) {
            let j: int = position(after, q);
            assert(keyed_at(after, q, j));
            if j != i {
                assert(keyed_at(pairs, q, j));
            }
        }
        if has_key(pairs, q) {
            let j: int = position(pairs, q);
            assert(keyed_at(pairs, q, j));
            assert(keyed_at(after, q, j));
        }
    }
    assert forall|q: K| q != key && has_key(pairs, q) implies after[position(after, q)].1
        == pairs[position(pairs, q)].1 by {
        let j: int = position(pairs, q);
        assert(keyed_at(pairs, q, j));
        lemma_found(pairs, j);
        lemma_found(after, j);
    }
    assert(as_map(after) =~= as_map(pairs).insert(key, value));
}

} // verus!
