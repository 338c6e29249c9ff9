use burn_sparse::experimental::sparseram::residency::cache::LRUCache;

#[test]
fn test_lru_cache_creation() {
    let cache: LRUCache<i32, String> = LRUCache::new(10);
    assert_eq!(cache.capacity(), 10);
    assert_eq!(cache.len(), 0);
    assert!(cache.is_empty());
}

#[test]
fn test_lru_cache_insert_and_get() {
    let mut cache = LRUCache::new(3);

    cache.insert(1, "one".to_string());
    cache.insert(2, "two".to_string());
    cache.insert(3, "three".to_string());

    assert_eq!(cache.len(), 3);
    assert_eq!(cache.get(&1), Some(&"one".to_string()));
    assert_eq!(cache.get(&2), Some(&"two".to_string()));
    assert_eq!(cache.get(&3), Some(&"three".to_string()));
    assert_eq!(cache.get(&4), None);
}

#[test]
fn test_lru_eviction() {
    let mut cache = LRUCache::new(2);

    cache.insert(1, "one".to_string());
    cache.insert(2, "two".to_string());

    cache.get(&1);

    let evicted = cache.insert(3, "three".to_string());

    assert!(evicted.is_some());
    let (evicted_key, evicted_val) = evicted.unwrap();
    assert_eq!(evicted_key, 2);
    assert_eq!(evicted_val, "two".to_string());

    assert!(cache.contains(&1));
    assert!(!cache.contains(&2));
    assert!(cache.contains(&3));
}

#[test]
fn test_lru_update_existing() {
    let mut cache = LRUCache::new(2);

    cache.insert(1, "one".to_string());
    cache.insert(1, "ONE".to_string());

    assert_eq!(cache.len(), 1);
    assert_eq!(cache.get(&1), Some(&"ONE".to_string()));
}

#[test]
fn test_lru_remove() {
    let mut cache = LRUCache::new(3);

    cache.insert(1, "one".to_string());
    cache.insert(2, "two".to_string());

    let removed = cache.remove(&1);
    assert_eq!(removed, Some("one".to_string()));
    assert_eq!(cache.len(), 1);
    assert!(!cache.contains(&1));
}

#[test]
fn test_lru_clear() {
    let mut cache = LRUCache::new(3);

    cache.insert(1, "one".to_string());
    cache.insert(2, "two".to_string());
    cache.insert(3, "three".to_string());

    cache.clear();

    assert_eq!(cache.len(), 0);
    assert!(cache.is_empty());
}

#[test]
fn test_lru_access_pattern() {
    let mut cache = LRUCache::new(3);

    cache.insert(1, 100);
    cache.insert(2, 200);
    cache.insert(3, 300);

    cache.get(&1);
    cache.get(&2);
    cache.get(&1);
    cache.get(&3);

    let evicted = cache.insert(4, 400);
    assert_eq!(evicted, Some((2, 200)));

    assert!(cache.contains(&1));
    assert!(!cache.contains(&2));
    assert!(cache.contains(&3));
    assert!(cache.contains(&4));
}

#[test]
fn test_lru_contains_no_update() {
    let mut cache = LRUCache::new(2);

    cache.insert(1, 100);
    cache.insert(2, 200);

    let initial_accesses = cache.access_count();
    cache.contains(&1);
    assert_eq!(cache.access_count(), initial_accesses);

    cache.get(&1);
    assert!(cache.access_count() > initial_accesses);
}

#[test]
fn most_recent_entry_is_never_evicted() {
    let mut cache = LRUCache::new(2);
    cache.insert(10, 1);
    cache.insert(20, 2);
    cache.get(&10);
    let evicted = cache.insert(30, 3);
    assert_eq!(evicted, Some((20, 2)));
    let evicted = cache.insert(40, 4);
    assert_eq!(evicted, Some((10, 1)));
    assert!(cache.contains(&30) && cache.contains(&40));
}

#[test]
fn get_mut_updates_value() {
    let mut cache = LRUCache::new(2);
    cache.insert(1, 5);
    if let Some(v) = cache.get_mut(&1) {
        *v = 7;
    }
    assert_eq!(cache.get(&1), Some(&7));
    assert_eq!(cache.get_mut(&9), None);
}

#[test]
fn keys_and_values_list_entries() {
    let mut cache = LRUCache::new(3);
    cache.insert(1, 10);
    cache.insert(2, 20);
    let mut keys: Vec<i32> = cache.keys().into_iter().copied().collect();
    keys.sort();
    assert_eq!(keys, vec![1, 2]);
    let mut values: Vec<i32> = cache.values().into_iter().copied().collect();
    values.sort();
    assert_eq!(values, vec![10, 20]);
}

#[test]
fn remove_missing_key() {
    let mut cache: LRUCache<i32, i32> = LRUCache::new(1);
    assert_eq!(cache.remove(&3), None);
    assert_eq!(cache.insert(1, 1), None);
    assert_eq!(cache.insert(2, 2), Some((1, 1)));
}

#[test]
fn keys_come_in_ascending_order_with_their_values() {
    let mut cache = LRUCache::new(4);
    cache.insert(3, 30);
    cache.insert(1, 10);
    cache.insert(2, 20);
    let keys: Vec<i32> = cache.keys().into_iter().copied().collect();
    assert_eq!(keys, vec![1, 2, 3]);
    let values: Vec<i32> = cache.values().into_iter().copied().collect();
    assert_eq!(values, vec![10, 20, 30]);
    cache.get(&3);
    cache.insert(4, 40);
    cache.insert(5, 50);
    let keys: Vec<i32> = cache.keys().into_iter().copied().collect();
    assert_eq!(keys, vec![2, 3, 4, 5]);
}
