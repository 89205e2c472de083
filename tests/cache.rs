use slot_cache::cache::Cache;

#[test]
fn test_cache() {
    let mut cache = Cache::new(2);
    assert_eq!(cache.len(), 0);

    cache.insert(1, 10).unwrap();
    assert!(cache.contains(&1));

    cache.insert(2, 20).unwrap();
    assert!(cache.contains(&2));

    cache.insert(3, 30).unwrap();
    assert_eq!(cache.len(), 2);
    assert!(!cache.contains(&1));
}

#[test]
fn test_keys() {
    let mut cache = Cache::new(3);
    cache.insert(1, 10).unwrap();
    cache.insert(2, 20).unwrap();
    cache.insert(3, 30).unwrap();

    let keys = cache.keys();
    assert_eq!(keys.len(), 3);
    assert!(keys.contains(&1));
    assert!(keys.contains(&2));
    assert!(keys.contains(&3));
}

#[test]
fn len_never_exceeds_capacity() {
    let mut cache = Cache::new(3);
    let keys = [5u64, 1, 5, 9, 2, 2, 7, 1, 8, 3, 5];
    for k in keys {
        cache.insert(k, k + 100).unwrap();
        assert!(cache.len() <= 3);
    }
    assert_eq!(cache.len(), 3);
}

#[test]
fn reinsert_updates_value_and_keeps_len() {
    let mut cache = Cache::new(4);
    cache.insert(1, 10).unwrap();
    cache.insert(2, 20).unwrap();
    assert_eq!(cache.get(&1), Some(10));
    cache.insert(1, 11).unwrap();
    assert_eq!(cache.len(), 2);
    assert_eq!(cache.get(&1), Some(11));
    assert_eq!(cache.get(&2), Some(20));
}

#[test]
fn overflow_evicts_first_inserted_key() {
    let mut cache = Cache::new(4);
    for k in [40u64, 10, 30, 20, 50] {
        cache.insert(k, k).unwrap();
    }
    assert_eq!(cache.len(), 4);
    assert!(!cache.contains(&40));
    for k in [10u64, 30, 20, 50] {
        assert!(cache.contains(&k));
    }
}

#[test]
fn reinsert_does_not_refresh_eviction_order() {
    let mut cache = Cache::new(2);
    cache.insert(1, 1).unwrap();
    cache.insert(2, 2).unwrap();
    cache.insert(1, 100).unwrap();
    cache.insert(3, 3).unwrap();
    assert!(!cache.contains(&1));
    assert!(cache.contains(&2));
    assert!(cache.contains(&3));
}

#[test]
fn get_missing_key_is_none() {
    let mut cache = Cache::new(2);
    assert_eq!(cache.get(&7), None);
    cache.insert(7, 70).unwrap();
    assert_eq!(cache.get(&7), Some(70));
    assert_eq!(cache.get(&8), None);
}

#[test]
fn is_max_size_when_full() {
    let mut cache = Cache::new(2);
    assert!(!cache.is_max_size());
    cache.insert(1, 1).unwrap();
    assert!(!cache.is_max_size());
    cache.insert(2, 2).unwrap();
    assert!(cache.is_max_size());
}

#[test]
fn zero_capacity_stores_nothing() {
    let mut cache = Cache::new(0);
    assert!(cache.is_max_size());
    assert_eq!(cache.insert(1, 10), Err((1, 10)));
    assert_eq!(cache.len(), 0);
    assert!(!cache.contains(&1));
    assert_eq!(cache.insert(2, 20), Err((2, 20)));
    assert_eq!(cache.len(), 0);
    assert!(cache.keys().is_empty());
}

#[test]
fn keys_of_empty_cache() {
    let cache = Cache::new(5);
    assert!(cache.keys().is_empty());
    assert_eq!(cache.len(), 0);
}
