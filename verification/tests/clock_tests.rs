use clock_cache::clock_map::ClockMap;
use clock_cache::dash_map::ClockDashMap;

#[test]
fn test_1() {
    let mut clockmap1 = ClockMap::new(3);
    let input_keys1 = vec![0, 4, 1, 4, 2, 4, 3, 4, 2, 4, 0, 4, 1, 4, 2, 4, 3, 4];
    let input_vals1 = vec![0, 4, 1, 4, 2, 4, 3, 4, 2, 4, 0, 4, 1, 4, 2, 4, 3, 4];

    for i in 0..input_keys1.len() {
        clockmap1.insert(input_keys1[i], input_vals1[i]);
    }

    assert_eq!(clockmap1.miss, 9);
}

#[test]
fn test_2() {
    let mut clockmap2 = ClockMap::new(4);
    let input_keys2 = vec![2, 5, 10, 1, 2, 2, 6, 9, 1, 2, 10, 2, 6, 1, 2, 1, 6, 9, 5, 1];
    let input_vals2 = vec![2, 5, 10, 1, 2, 2, 6, 9, 1, 2, 10, 2, 6, 1, 2, 1, 6, 9, 5, 1];

    for i in 0..input_keys2.len() {
        clockmap2.insert(input_keys2[i], input_vals2[i]);
    }

    assert_eq!(clockmap2.miss, 11)
}

#[test]
fn test_multiple_thread() {}

#[test]
fn capacity_zero_put_then_get_is_absent() {
    let mut store = ClockMap::new(0);
    store.insert(5, 7);
    assert_eq!(store.read(&5), None);
    assert_eq!(store.miss_count(), 0);
}

#[test]
fn sharded_capacity_zero_put_then_get_is_absent() {
    let mut cache = ClockDashMap::new(0, 2);
    cache.insert(5, 7);
    assert_eq!(cache.read(&5), None);
}

#[test]
fn update_in_place_is_a_hit() {
    let mut store = ClockMap::new(2);
    store.insert(1, 10);
    store.insert(1, 99);
    assert_eq!(store.read(&1), Some(99));
    assert_eq!(store.miss_count(), 1);
}

#[test]
fn reinsert_same_pair_changes_nothing() {
    let mut store = ClockMap::new(2);
    store.insert(1, 10);
    store.insert(2, 20);
    store.insert(1, 10);
    store.insert(1, 10);
    assert_eq!(store.miss_count(), 2);
    assert_eq!(store.read(&1), Some(10));
    assert_eq!(store.read(&2), Some(20));
}

#[test]
fn read_does_not_count_misses() {
    let mut store = ClockMap::new(2);
    store.insert(1, 10);
    assert_eq!(store.read(&1), Some(10));
    assert_eq!(store.read(&2), None);
    assert_eq!(store.read(&1), Some(10));
    assert_eq!(store.miss_count(), 1);
}

#[test]
fn eviction_takes_slot_without_second_chance() {
    let mut store = ClockMap::new(2);
    store.insert(1, 10);
    store.insert(2, 20);
    store.insert(3, 30);
    assert_eq!(store.read(&1), None);
    assert_eq!(store.read(&2), Some(20));
    assert_eq!(store.read(&3), Some(30));
    assert_eq!(store.miss_count(), 3);
}

#[test]
fn read_grants_second_chance_and_changes_eviction_order() {
    let mut store = ClockMap::new(2);
    store.insert(1, 10);
    store.insert(2, 20);
    assert_eq!(store.read(&1), Some(10));
    store.insert(3, 30);
    assert_eq!(store.read(&1), Some(10));
    assert_eq!(store.read(&2), None);
    assert_eq!(store.read(&3), Some(30));
}

#[test]
fn full_lap_of_second_chances_still_places() {
    let mut store = ClockMap::new(1);
    store.insert(7, 70);
    store.insert(7, 71);
    store.insert(9, 90);
    assert_eq!(store.read(&9), Some(90));
    assert_eq!(store.read(&7), None);
    assert_eq!(store.miss_count(), 2);
}

#[test]
fn full_lap_evicts_the_slot_under_the_hand() {
    let mut store = ClockMap::new(2);
    store.insert(1, 10);
    store.insert(2, 20);
    store.insert(1, 11);
    store.insert(2, 22);
    store.insert(3, 30);
    assert_eq!(store.read(&1), None);
    assert_eq!(store.read(&2), Some(22));
    assert_eq!(store.read(&3), Some(30));
    assert_eq!(store.miss_count(), 3);
}

#[test]
fn sharded_insert_and_read_back() {
    let mut cache = ClockDashMap::new(16, 4);
    for k in 0..8 {
        cache.insert(k, k * 10);
    }
    for k in 0..8 {
        assert_eq!(cache.read(&k), Some(k * 10));
    }
    assert_eq!(cache.read(&100), None);
}

#[test]
fn shard_assignment_is_stable_across_operations() {
    let mut cache = ClockDashMap::new(16, 4);
    let mut homes = Vec::new();
    for k in 0..32 {
        homes.push(cache.get_shard(&k));
    }
    for k in 0..32 {
        cache.insert(k, k);
    }
    for k in 0..32 {
        let home = cache.get_shard(&k);
        assert!(home < 4);
        assert_eq!(home, homes[k as usize]);
    }
}

#[test]
fn shard_routing_really_hashes() {
    let cache = ClockDashMap::new(64, 8);
    let mut some_key_moved = false;
    for k in 0..64 {
        if cache.get_shard(&k) != (k as usize) % 8 {
            some_key_moved = true;
        }
    }
    assert!(some_key_moved);
}

#[test]
fn remainder_capacity_goes_to_the_last_shard() {
    let cache = ClockDashMap::new(10, 4);
    assert_eq!(cache.shards.len(), 4);
    assert_eq!(cache.shards[0].capacity, 2);
    assert_eq!(cache.shards[1].capacity, 2);
    assert_eq!(cache.shards[2].capacity, 2);
    assert_eq!(cache.shards[3].capacity, 4);
}
