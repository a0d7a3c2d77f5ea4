use std::sync::Arc;

use auth_chain::cache::AuthChainCache;
use auth_chain::data::{durable_entry, encode_key, Data, KeyValueDatabase};
use auth_chain::error::{Error, StoreIoError};
use auth_chain::store::{KvTree, MemoryTree};

fn chain(ids: &[u64]) -> Arc<[u64]> {
    Arc::from(ids.to_vec())
}

fn io_error(message: &str) -> StoreIoError {
    StoreIoError { message: message.to_string() }
}

#[test]
fn singleton_key_has_a_durable_key() {
    assert_eq!(encode_key(&[42]), Some([0, 0, 0, 0, 0, 0, 0, 42]));
    assert_eq!(encode_key(&[]), None);
    assert_eq!(encode_key(&[5, 6]), None);
}

#[test]
fn only_singleton_keys_owe_a_durable_write() {
    assert_eq!(
        durable_entry(&[42], &[42, 7]),
        Some(([0, 0, 0, 0, 0, 0, 0, 42], vec![0, 0, 0, 0, 0, 0, 0, 42, 0, 0, 0, 0, 0, 0, 0, 7]))
    );
    assert_eq!(durable_entry(&[5, 6], &[5, 6, 1]), None);
    assert_eq!(durable_entry(&[], &[1]), None);
}

#[test]
fn stored_singleton_survives_a_fresh_cache() {
    let mut db = KeyValueDatabase::new(MemoryTree::new());
    assert_eq!(db.cache_auth_chain(vec![42], chain(&[42, 7, 3])), Ok(()));
    assert_eq!(db.get_cached_eventid_authchain(&[42]), Ok(Some(chain(&[42, 7, 3]))));

    let mut fresh = KeyValueDatabase::new(db.shorteventid_authchain);
    assert_eq!(fresh.auth_chain_cache.get(&[42]), None);
    assert_eq!(fresh.get_cached_eventid_authchain(&[42]), Ok(Some(chain(&[42, 7, 3]))));
}

#[test]
fn stored_composite_is_lost_in_a_fresh_cache() {
    let mut db = KeyValueDatabase::new(MemoryTree::new());
    assert_eq!(db.cache_auth_chain(vec![5, 6], chain(&[5, 6, 1])), Ok(()));
    assert_eq!(db.get_cached_eventid_authchain(&[5, 6]), Ok(Some(chain(&[5, 6, 1]))));

    let mut fresh = KeyValueDatabase::new(db.shorteventid_authchain);
    assert_eq!(fresh.get_cached_eventid_authchain(&[5, 6]), Ok(None));
}

#[test]
fn storing_twice_is_storing_once() {
    let mut db = KeyValueDatabase::new(MemoryTree::new());
    assert_eq!(db.cache_auth_chain(vec![4], chain(&[4, 2])), Ok(()));
    assert_eq!(db.cache_auth_chain(vec![4], chain(&[4, 2])), Ok(()));
    assert_eq!(db.get_cached_eventid_authchain(&[4]), Ok(Some(chain(&[4, 2]))));
    assert_eq!(
        db.shorteventid_authchain.get(&[0, 0, 0, 0, 0, 0, 0, 4]),
        Ok(Some(vec![0, 0, 0, 0, 0, 0, 0, 4, 0, 0, 0, 0, 0, 0, 0, 2]))
    );

    assert_eq!(db.cache_auth_chain(vec![4, 5], chain(&[1])), Ok(()));
    assert_eq!(db.cache_auth_chain(vec![4, 5], chain(&[1])), Ok(()));
    assert_eq!(db.get_cached_eventid_authchain(&[4, 5]), Ok(Some(chain(&[1]))));
}

#[test]
fn durable_entry_is_keyed_and_framed_big_endian() {
    let mut db = KeyValueDatabase::new(MemoryTree::new());
    assert_eq!(db.cache_auth_chain(vec![258], chain(&[258, 1 << 32])), Ok(()));
    assert_eq!(
        db.shorteventid_authchain.get(&[0, 0, 0, 0, 0, 0, 1, 2]),
        Ok(Some(vec![0, 0, 0, 0, 0, 0, 1, 2, 0, 0, 0, 1, 0, 0, 0, 0]))
    );
}

#[test]
fn key_order_matters() {
    let mut db = KeyValueDatabase::new(MemoryTree::new());
    assert_eq!(db.cache_auth_chain(vec![5, 6], chain(&[5, 6, 1])), Ok(()));
    assert_eq!(db.get_cached_eventid_authchain(&[6, 5]), Ok(None));
}

#[test]
fn corrupt_durable_value_is_an_error_and_is_not_cached() {
    let mut tree = MemoryTree::new();
    assert_eq!(tree.insert(&[0, 0, 0, 0, 0, 0, 0, 3], &[0, 0, 0, 0, 0, 0, 0, 3, 0, 0, 1]), Ok(()));
    let mut db = KeyValueDatabase::new(tree);
    assert_eq!(db.get_cached_eventid_authchain(&[3]), Err(Error::CorruptEncoding));
    assert_eq!(db.auth_chain_cache.get(&[3]), None);
}

#[test]
fn promote_decodes_and_caches_under_the_singleton_key() {
    let mut cache = AuthChainCache::new();
    let value: Vec<u8> = vec![0, 0, 0, 0, 0, 0, 0, 42, 0, 0, 0, 0, 0, 0, 0, 7];
    assert_eq!(cache.promote(42, Ok(Some(value))), Ok(Some(chain(&[42, 7]))));
    assert_eq!(cache.get(&[42]), Some(chain(&[42, 7])));
    assert_eq!(cache.get(&[7]), None);
}

#[test]
fn promote_of_nothing_caches_nothing() {
    let mut cache = AuthChainCache::new();
    assert_eq!(cache.promote(42, Ok(None)), Ok(None));
    assert_eq!(cache.promote(42, Err(io_error("down"))), Err(Error::StoreIo(io_error("down"))));
    assert_eq!(cache.promote(42, Ok(Some(vec![1, 2, 3]))), Err(Error::CorruptEncoding));
    assert_eq!(cache.get(&[42]), None);
}

#[test]
fn promote_of_an_empty_value_is_an_empty_chain() {
    let mut cache = AuthChainCache::new();
    assert_eq!(cache.promote(1, Ok(Some(Vec::new()))), Ok(Some(chain(&[]))));
    assert_eq!(cache.get(&[1]), Some(chain(&[])));
}

#[test]
fn complete_store_caches_whatever_the_write_did() {
    let mut cache = AuthChainCache::new();
    assert_eq!(cache.complete_store(vec![1], chain(&[1, 2]), Ok(())), Ok(()));
    assert_eq!(
        cache.complete_store(vec![2], chain(&[2, 3]), Err(io_error("full"))),
        Err(Error::StoreIo(io_error("full")))
    );
    assert_eq!(cache.get(&[1]), Some(chain(&[1, 2])));
    assert_eq!(cache.get(&[2]), Some(chain(&[2, 3])));
}

#[test]
fn lookup_on_empty_store_is_absent_and_writes_nothing() {
    let mut db = KeyValueDatabase::new(MemoryTree::new());
    assert_eq!(db.get_cached_eventid_authchain(&[99]), Ok(None));
    assert!(db.shorteventid_authchain.is_empty());
    assert_eq!(db.auth_chain_cache.get(&[99]), None);
}

#[test]
fn composite_key_never_reaches_the_durable_tier() {
    let mut db = KeyValueDatabase::new(MemoryTree::new());
    assert_eq!(db.cache_auth_chain(vec![5, 6], chain(&[5, 6, 1])), Ok(()));
    assert_eq!(db.cache_auth_chain(vec![], chain(&[1])), Ok(()));
    assert!(db.shorteventid_authchain.is_empty());
    let mut fresh = KeyValueDatabase::new(db.shorteventid_authchain);
    assert_eq!(fresh.get_cached_eventid_authchain(&[5, 6]), Ok(None));
    assert_eq!(fresh.get_cached_eventid_authchain(&[]), Ok(None));
}

#[test]
fn singleton_key_reaches_the_durable_tier() {
    let mut db = KeyValueDatabase::new(MemoryTree::new());
    assert_eq!(db.cache_auth_chain(vec![5], chain(&[5, 1])), Ok(()));
    assert!(!db.shorteventid_authchain.is_empty());
}

#[test]
fn memory_hit_does_not_read_the_durable_tier() {
    let mut tree = MemoryTree::new();
    assert_eq!(tree.insert(&[0, 0, 0, 0, 0, 0, 0, 7], &[1, 2, 3]), Ok(()));
    let mut db = KeyValueDatabase::new(tree);
    db.auth_chain_cache.insert(vec![7], chain(&[7, 1]));
    assert_eq!(db.get_cached_eventid_authchain(&[7]), Ok(Some(chain(&[7, 1]))));
}

#[test]
fn durable_hit_is_promoted_into_memory() {
    let mut tree = MemoryTree::new();
    assert_eq!(
        tree.insert(&[0, 0, 0, 0, 0, 0, 0, 9], &[0, 0, 0, 0, 0, 0, 0, 9, 0, 0, 0, 0, 0, 0, 0, 1]),
        Ok(())
    );
    let mut db = KeyValueDatabase::new(tree);
    assert_eq!(db.auth_chain_cache.get(&[9]), None);
    assert_eq!(db.get_cached_eventid_authchain(&[9]), Ok(Some(chain(&[9, 1]))));
    assert_eq!(db.auth_chain_cache.get(&[9]), Some(chain(&[9, 1])));
    assert_eq!(db.get_cached_eventid_authchain(&[9]), Ok(Some(chain(&[9, 1]))));
}

#[test]
fn lookup_never_writes_to_the_durable_tier() {
    let mut tree = MemoryTree::new();
    assert_eq!(tree.insert(&[0, 0, 0, 0, 0, 0, 0, 9], &[0, 0, 0, 0, 0, 0, 0, 1]), Ok(()));
    let mut db = KeyValueDatabase::new(tree);
    assert_eq!(db.get_cached_eventid_authchain(&[9]), Ok(Some(chain(&[1]))));
    assert_eq!(db.get_cached_eventid_authchain(&[1]), Ok(None));
    assert_eq!(db.shorteventid_authchain.get(&[0, 0, 0, 0, 0, 0, 0, 9]), Ok(Some(vec![0, 0, 0, 0, 0, 0, 0, 1])));
    assert_eq!(db.shorteventid_authchain.get(&[0, 0, 0, 0, 0, 0, 0, 1]), Ok(None));
}
