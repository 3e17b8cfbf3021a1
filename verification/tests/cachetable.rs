use cachetable::CacheTable;

/// Tests the initialization of a CacheTable.
#[test]
fn cachetable_init() {
    let _ = CacheTable::<u32>::new(2, 32);
}

/// Tests the insertion of a key-value pair into the cache.
#[test]
fn cachetable_insert() {
    let key: u64 = 10;
    let value = vec![10u32];
    let mut ctable = CacheTable::<Vec<u32>>::new(2, 32);

    ctable.insert(key, value);
}

/// Tests the retrieval of a value by key from the cache.
#[test]
fn get() {
    let key: u64 = 10;
    let value = vec![10u32];

    let mut ctable = CacheTable::<Vec<u32>>::new(2, 32);

    ctable.insert(key, value.clone());

    let get_value = ctable.get(key);
    assert!(get_value.is_some());
    assert_eq!(get_value.unwrap(), &value);
}

/// Tests the invalidation of a cache entry.
#[test]
fn invalidate() {
    let key: u64 = 10;
    let value = vec![10u32];

    let mut ctable = CacheTable::<Vec<u32>>::new(2, 32);

    ctable.insert(key, value.clone());

    let get_value = ctable.get(key);
    assert!(get_value.is_some());
    assert_eq!(get_value.unwrap(), &value);

    ctable.invalid(key);

    let get_value = ctable.get(key);
    assert!(get_value.is_none());
}

/// Tests the retrieval failure of a non-existent key.
#[test]
fn get_fail() {
    let mut key: u64 = 10;
    let value = vec![10u32];

    let mut ctable = CacheTable::<Vec<u32>>::new(2, 32);

    ctable.insert(key, value);

    key = 11;
    let get_value = ctable.get(key);
    assert!(get_value.is_none());
}

/// Tests the wrapping of log entries in the cache.
#[test]
fn log_wrap() {
    let mut key: u64 = 10;
    let value = vec![10u32];

    let mut ctable = CacheTable::<Vec<u32>>::new(2, 32);

    ctable.insert(key, value.clone());
    key = 15;
    ctable.insert(key, value.clone());

    key = 55;
    ctable.insert(key, value.clone());

    key = 15;
    let get_value = ctable.get(key);

    assert!(get_value.is_some());
    assert_eq!(get_value.unwrap(), &value);
}

/// Inserting the same key twice rewrites the record in place: the second
/// value is returned and no other key is disturbed.
#[test]
fn update_in_place() {
    let mut ctable = CacheTable::<Vec<u32>>::new(2, 32);

    ctable.insert(10, vec![1u32]);
    ctable.insert(15, vec![2u32]);
    ctable.insert(10, vec![3u32]);

    assert_eq!(ctable.get(10), Some(&vec![3u32]));
    assert_eq!(ctable.get(15), Some(&vec![2u32]));
}

/// With a two-record log, a third distinct key evicts the oldest record,
/// whose key then misses.
#[test]
fn eviction_invalidates_oldest() {
    let mut ctable = CacheTable::<Vec<u32>>::new(2, 32);

    ctable.insert(10, vec![10u32]);
    ctable.insert(15, vec![15u32]);
    ctable.insert(55, vec![55u32]);

    assert!(ctable.get(10).is_none());
    assert_eq!(ctable.get(15), Some(&vec![15u32]));
    assert_eq!(ctable.get(55), Some(&vec![55u32]));
}

/// Capacity: with a two-record log, no more than two of a batch of
/// distinct keys are retrievable at once.
#[test]
fn capacity_bound() {
    let mut ctable = CacheTable::<Vec<u32>>::new(2, 32);

    for i in 0..10u64 {
        ctable.insert(i, vec![i as u32]);
    }

    let mut hits: u32 = 0;
    for i in 0..10u64 {
        if ctable.get(i).is_some() {
            hits += 1;
        }
    }
    assert!(hits <= 2);
}

/// Round trip under non-colliding load: a run that fits the log, with far
/// fewer keys than ways per set, leaves every key retrievable.
#[test]
fn round_trip_within_capacity() {
    let mut ctable = CacheTable::<Vec<u32>>::new(64, 64);

    for i in 0..8u64 {
        ctable.insert(i, vec![i as u32]);
    }
    for i in 0..8u64 {
        assert!(ctable.get(i).is_some());
    }
}
