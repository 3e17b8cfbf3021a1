use cachetable::ShardedTable;

#[test]
fn test_basic_insert_get_single_thread() {
    let mut table = ShardedTable::<&str>::new(2, 32);
    let shard = table.get_shard_mut(0);
    shard.register(1);
    shard.insert(1, 10, "ten");
    shard.insert(1, 20, "twenty");

    assert_eq!(shard.get(1, 10), Some(&"ten"));
    assert_eq!(shard.get(1, 20), Some(&"twenty"));
    assert_eq!(shard.get(1, 30), None);
}

#[test]
fn test_double_register() {
    let mut table = ShardedTable::<u32>::new(2, 32);
    let shard = table.get_shard_mut(0);

    assert!(shard.register(1));
    assert!(!shard.register(1));
}

#[test]
fn test_eviction_in_shard() {
    let mut table = ShardedTable::<u32>::new(8, 8);
    let shard = table.get_shard_mut(0);
    shard.register(1);

    for i in 0..50u64 {
        shard.insert(1, i, i as u32);
    }

    let mut hits: u32 = 0;
    for i in 40..50u64 {
        if shard.get(1, i).is_some() {
            hits += 1;
        }
    }

    assert!(hits >= 5);
}

#[test]
fn test_shard_isolation() {
    let mut table = ShardedTable::<&str>::new(2, 32);

    let shard0 = table.get_shard_mut(0);
    shard0.register(1);
    shard0.insert(1, 1, "a");

    let shard1 = table.get_shard_mut(1);
    shard1.register(2);
    shard1.insert(2, 1 << 32, "b");

    assert_eq!(table.get_shard(0).get(1, 1), Some(&"a"));
    assert_eq!(table.get_shard(1).get(2, 1 << 32), Some(&"b"));
}

/// A second registration fails even when another identity attempts it, and
/// a registration on one shard does not claim any other shard.
#[test]
fn register_per_shard() {
    let mut table = ShardedTable::<u32>::new(2, 32);

    assert!(table.get_shard_mut(0).register(7));
    assert!(!table.get_shard_mut(0).register(8));
    assert!(table.get_shard_mut(1).register(8));
}
