use kataradb::active_expiration::ActiveExpirationManager;
use kataradb::eviction::{
    AllKeysLRUEvictionStrategy, EvictionManager, EvictionManagerConfiguration, EvictionStrategy,
    SimpleEvictionStrategy,
};
use kataradb::object_type_encoding::{
    get_string_encoding, get_type, OBJ_ENCODING_EMBSTR, OBJ_ENCODING_INT, OBJ_ENCODING_RAW,
    OBJ_TYPE_STRING,
};
use kataradb::resp::DataType;
use kataradb::stats::{update_keyspace_statistics, KeyspaceStatistics};
use kataradb::store::{store_object_to_datatype, ObjectValue, Store, StoreObject};

const LONG_VALUE: &str = "12345678901234567890123456789012345678901234567890test12345";

fn keys_of(store: &Store) -> Vec<String> {
    store.get_data().iter().map(|e| e.key.clone()).collect()
}

fn expiring_keys_of(store: &Store) -> Vec<String> {
    store.get_expiration_data().iter().map(|e| e.key.clone()).collect()
}

#[test]
fn test_store_put_get() {
    let mut store = Store::new();

    store.put("key", ObjectValue::String("value".to_string()), -1, OBJ_TYPE_STRING | OBJ_ENCODING_RAW);
    store.put("key2", ObjectValue::String("123".to_string()), 1000, OBJ_TYPE_STRING | OBJ_ENCODING_INT);
    store.put("key4", ObjectValue::String(String::from(LONG_VALUE)), 2000, OBJ_TYPE_STRING | OBJ_ENCODING_EMBSTR);

    let key = store.get("key").expect("Key not found");
    assert_eq!(key.type_encoding, OBJ_TYPE_STRING | OBJ_ENCODING_RAW);
    assert_eq!(key.get_value_clone(), ObjectValue::String("value".to_string()));
    assert_eq!(store.get_expiry("key"), None);

    let key2 = store.get("key2").expect("Key not found");
    assert_eq!(key2.type_encoding, OBJ_TYPE_STRING | OBJ_ENCODING_INT);
    assert_eq!(key2.get_value_clone(), ObjectValue::String("123".to_string()));
    assert_eq!(store.get_expiry("key2").unwrap(), chrono::Utc::now().timestamp_millis() + 1000);

    let key4 = store.get("key4").expect("Key not found");
    assert_eq!(key4.type_encoding, OBJ_TYPE_STRING | OBJ_ENCODING_EMBSTR);
    assert_eq!(key4.get_value_clone(), ObjectValue::String(String::from(LONG_VALUE)));
    assert_eq!(store.get_expiry("key4").unwrap(), chrono::Utc::now().timestamp_millis() + 2000);
}

#[test]
fn test_store_remove() {
    let mut store = Store::new();
    store.put("key", ObjectValue::String("value".to_string()), -1, OBJ_TYPE_STRING | OBJ_ENCODING_RAW);
    store.put("key2", ObjectValue::String("123".to_string()), 1000, OBJ_TYPE_STRING | OBJ_ENCODING_INT);
    store.put("key4", ObjectValue::String(String::from(LONG_VALUE)), 2000, OBJ_TYPE_STRING | OBJ_ENCODING_EMBSTR);

    let removed_key = store.remove("key");
    let removed_key_2 = store.remove("key2");
    let removed_key_4 = store.remove("key4");
    let not_existing_key = store.remove("notExistingKey");

    assert_eq!(removed_key.expect("Key not found").value, Box::new(ObjectValue::String("value".to_string())));
    assert_eq!(removed_key_2.expect("Key not found").value, Box::new(ObjectValue::String("123".to_string())));
    assert_eq!(
        removed_key_4.expect("Key not found").value,
        Box::new(ObjectValue::String(String::from(LONG_VALUE)))
    );
    assert_eq!(not_existing_key.is_none(), true);
}

#[test]
fn expiration_table_stays_within_the_keyspace() {
    let mut store = Store::with_eviction(None);
    let now = 1_000_000;
    store.put_at("a", ObjectValue::String("1".into()), 500, 0, now);
    store.put_at("b", ObjectValue::String("2".into()), 500, 0, now);
    store.put_at("c", ObjectValue::String("3".into()), -1, 0, now);
    store.remove("a");
    store.put_at("b", ObjectValue::String("4".into()), 0, 0, now);
    let _ = store.get_at("c", now);
    store.put_at("d", ObjectValue::String("5".into()), 10, 0, now);
    let _ = store.get_at("d", now + 10);
    let keys = keys_of(&store);
    for k in expiring_keys_of(&store) {
        assert!(keys.contains(&k), "{} expires but is not a key", k);
    }
    assert_eq!(keys, vec!["b".to_string(), "c".to_string()]);
    assert!(expiring_keys_of(&store).is_empty());
    assert_eq!(store.get_statistics()[0].number_of_keys, 2);
}

#[test]
fn lazy_expiration_removes_from_both_tables() {
    let mut store = Store::with_eviction(None);
    store.put_at("k", ObjectValue::String("v".into()), 1000, 0, 5000);
    assert_eq!(store.get_expiry("k"), Some(6000));
    let live = store.get_at("k", 5999).expect("still live");
    assert_eq!(live.last_accessed_at, 5999);
    assert!(store.get_at("k", 6000).is_none());
    assert!(!store.contains_key("k"));
    assert_eq!(store.get_expiry("k"), None);
    assert!(store.get_data().is_empty());
    assert!(store.get_expiration_data().is_empty());
}

#[test]
fn expiry_saturates_instead_of_overflowing() {
    let mut store = Store::with_eviction(None);
    store.put_at("k", ObjectValue::String("v".into()), i64::MAX, 0, 10);
    assert_eq!(store.get_expiry("k"), Some(i64::MAX));
}

#[test]
fn put_without_ttl_drops_an_earlier_expiry() {
    let mut store = Store::with_eviction(None);
    store.put_at("k", ObjectValue::String("v".into()), 1000, 0, 0);
    store.put_at("k", ObjectValue::String("w".into()), -1, 0, 0);
    assert_eq!(store.get_expiry("k"), None);
    assert_eq!(store.get_data().len(), 1);
}

#[test]
fn random_eviction_keeps_the_keyspace_bounded() {
    // limit 5, ratio 0.4: two keys go when the limit is reached
    let mut store = Store::new();
    for (i, k) in ["a", "b", "c", "d", "e"].iter().enumerate() {
        store.put_at(k, ObjectValue::String(i.to_string()), -1, 0, 0);
    }
    assert_eq!(store.get_data().len(), 5);
    store.put_at("f", ObjectValue::String("5".into()), -1, 0, 0);
    assert!(store.get_data().len() <= 5 - 2 + 1);
    assert_eq!(keys_of(&store), vec!["c", "d", "e", "f"]);
    assert_eq!(store.get_statistics()[0].number_of_keys, 4);
}

#[test]
fn keys_to_remove_rounds_down() {
    let config = EvictionManagerConfiguration { keys_limit: 5, eviction_ratio_per_mille: 400 };
    assert_eq!(config.get_keys_to_remove(), 2);
    let config = EvictionManagerConfiguration { keys_limit: 7, eviction_ratio_per_mille: 250 };
    assert_eq!(config.get_keys_to_remove(), 1);
    let config = EvictionManagerConfiguration { keys_limit: u64::MAX, eviction_ratio_per_mille: u64::MAX };
    assert_eq!(config.get_keys_to_remove(), u64::MAX);
}

#[test]
fn simple_eviction_removes_the_first_key() {
    let manager = EvictionManager::new(
        EvictionManagerConfiguration { keys_limit: 2, eviction_ratio_per_mille: 0 },
        EvictionStrategy::Simple(SimpleEvictionStrategy {}),
    );
    let mut store = Store::with_eviction(Some(manager));
    store.put_at("a", ObjectValue::String("1".into()), -1, 0, 0);
    store.put_at("b", ObjectValue::String("2".into()), -1, 0, 0);
    store.put_at("c", ObjectValue::String("3".into()), -1, 0, 0);
    assert_eq!(keys_of(&store), vec!["b", "c"]);
}

#[test]
fn lru_eviction_removes_the_least_recently_used() {
    let manager = EvictionManager::new(
        EvictionManagerConfiguration { keys_limit: 3, eviction_ratio_per_mille: 400 },
        EvictionStrategy::AllKeysLRU(AllKeysLRUEvictionStrategy::new()),
    );
    let mut store = Store::with_eviction(Some(manager));
    store.put_at("a", ObjectValue::String("1".into()), -1, 0, 100);
    store.put_at("b", ObjectValue::String("2".into()), -1, 0, 50);
    store.put_at("c", ObjectValue::String("3".into()), -1, 0, 200);
    let _ = store.get_at("a", 300);
    store.put_at("d", ObjectValue::String("4".into()), -1, 0, 400);
    assert_eq!(keys_of(&store), vec!["a", "c", "d"]);
}

#[test]
fn active_expiration_deletes_every_expired_sampled_key() {
    let mut store = Store::with_eviction(None);
    for i in 0..10 {
        let ttl = if i % 3 == 0 { 10 } else { 10_000 };
        store.put_at(&format!("k{}", i), ObjectValue::String("v".into()), ttl, 0, 0);
    }
    store.put_at("persistent", ObjectValue::String("v".into()), -1, 0, 0);
    let mut manager = ActiveExpirationManager::new(3000);
    // four of ten sampled keys expired: more than a quarter, so it sweeps again
    assert!(manager.sweep(&mut store, 100));
    for i in [0, 3, 6, 9] {
        assert!(!store.contains_key(&format!("k{}", i)));
    }
    assert_eq!(store.get_data().len(), 7);
    assert!(!manager.sweep(&mut store, 100));
}

#[test]
fn active_expiration_waits_for_its_interval() {
    let mut store = Store::with_eviction(None);
    store.put_at("k", ObjectValue::String("v".into()), 10, 0, 0);
    let mut manager = ActiveExpirationManager::new(3000);
    assert!(!manager.run_at(&mut store, 2999));
    assert!(store.contains_key("k"));
    assert!(manager.run_at(&mut store, 3000));
    assert!(!store.contains_key("k"));
    assert!(!manager.run_at(&mut store, 4000));
}

#[test]
fn string_encoding_follows_the_value() {
    assert_eq!(get_string_encoding(&"-42".to_string()), OBJ_ENCODING_INT);
    assert_eq!(get_string_encoding(&"hello".to_string()), OBJ_ENCODING_EMBSTR);
    assert_eq!(get_string_encoding(&LONG_VALUE.to_string()), OBJ_ENCODING_RAW);
    assert_eq!(get_string_encoding(&"a".repeat(43)), OBJ_ENCODING_EMBSTR);
    assert_eq!(get_string_encoding(&"a".repeat(44)), OBJ_ENCODING_RAW);
    assert_eq!(get_type(0x38), 0x30);
    assert_eq!(get_type(OBJ_TYPE_STRING | OBJ_ENCODING_INT), OBJ_TYPE_STRING);
}

#[test]
fn stats_update_only_known_keyspaces() {
    let mut stats = vec![KeyspaceStatistics { number_of_keys: 0 }];
    update_keyspace_statistics(&mut stats, 0, 7);
    update_keyspace_statistics(&mut stats, 3, 9);
    assert_eq!(stats.len(), 1);
    assert_eq!(stats[0].number_of_keys, 7);
}

#[test]
fn stored_strings_become_bulk_strings() {
    let object = StoreObject::new(ObjectValue::String("v".into()), 0);
    assert_eq!(store_object_to_datatype(&object), DataType::BulkString("v".into()));
    assert_eq!(object.clone().get_value_clone(), ObjectValue::String("v".into()));
}

#[test]
fn sixth_put_leaves_exactly_four_keys() {
    let mut s = Store::new();
    for k in ["k1", "k2", "k3", "k4", "k5"] {
        s.put(k, ObjectValue::String("v".to_string()), -1, 0);
    }
    s.put("k6", ObjectValue::String("v".to_string()), -1, 0);
    assert_eq!(s.get_data().len(), 4);
    assert!(s.contains_key("k6"));
}

#[test]
fn remaining_keys_keep_their_expiry_after_eviction() {
    let mut s = Store::new();
    for k in ["k1", "k2", "k3", "k4", "k5"] {
        s.put_at(k, ObjectValue::String("v".to_string()), 60_000, 0, 1000);
    }
    s.put_at("k6", ObjectValue::String("v".to_string()), -1, 0, 1000);
    assert_eq!(keys_of(&s), vec!["k3", "k4", "k5", "k6"]);
    for k in ["k3", "k4", "k5"] {
        assert_eq!(s.get_expiry(k), Some(61_000));
    }
    assert_eq!(s.get_expiry("k1"), None);
    assert_eq!(s.get_expiry("k6"), None);
}
