use concurrent_fixed_hashmap::ConcurrentFixedHashMap;
use concurrent_fixed_hashmap::ReadGuard;
use concurrent_fixed_hashmap::WriteGuard;
use std::sync::Arc;

type Key = (i32, i32, i32);

fn read(map: &ConcurrentFixedHashMap<Key, i32>, key: &Key) -> Option<i32> {
    match map.get(key) {
        Some(guard) => {
            let value = *guard;
            guard.release();
            Some(value)
        }
        None => None,
    }
}

#[test]
fn test_insert_and_get() {
    let map = ConcurrentFixedHashMap::with_size(1 << 12);

    for i in 1..11 {
        map.insert((100 * i, 1000 * i, 10000 * i), 999 * i);

        match map.get(&(100 * i, 1000 * i, 10000 * i)) {
            None => panic!("item not get."),
            Some(e) => e.release(),
        }
    }

    for i in 1..11 {
        if let Some(e) = map.get(&(100 * i, 1000 * i, 10000 * i)) {
            assert_eq!(999 * i, *e);
            e.release();
        } else {
            assert!(false);
        }
    }
}

#[test]
fn test_insert_and_get_mut() {
    let map = ConcurrentFixedHashMap::with_size(1 << 12);

    for i in 1..11 {
        map.insert((100 * i, 1000 * i, 10000 * i), 999 * i);

        match map.get(&(100 * i, 1000 * i, 10000 * i)) {
            None => panic!("item not get."),
            Some(e) => e.release(),
        }
    }

    for i in 1..11 {
        if let Some(mut e) = map.get_mut(&(100 * i, 1000 * i, 10000 * i)) {
            *e = *e * 100;
            e.release();
        }
    }

    for i in 1..11 {
        if let Some(e) = map.get(&(100 * i, 1000 * i, 10000 * i)) {
            assert_eq!(999 * i * 100, *e);
            e.release();
        } else {
            assert!(false);
        }
    }
}

#[test]
fn test_insert_new_and_get() {
    let map = ConcurrentFixedHashMap::with_size(1 << 12);

    for i in 1..11 {
        map.insert_new((100 * i, 1000 * i, 10000 * i), 999 * i);

        match map.get(&(100 * i, 1000 * i, 10000 * i)) {
            None => panic!("item not get."),
            Some(e) => e.release(),
        }
    }

    for i in 1..11 {
        if let Some(e) = map.get(&(100 * i, 1000 * i, 10000 * i)) {
            assert_eq!(999 * i, *e);
            e.release();
        } else {
            assert!(false);
        }
    }
}

#[test]
fn test_insert_and_insert_new_and_get() {
    let map = ConcurrentFixedHashMap::with_size(1 << 12);

    for i in 1..11 {
        map.insert((100 * i, 1000 * i, 10000 * i), 999 * i);

        match map.get(&(100 * i, 1000 * i, 10000 * i)) {
            None => panic!("item not get."),
            Some(e) => e.release(),
        }
    }

    for i in 1..11 {
        map.insert_new((100 * i, 1000 * i, 10000 * i), 999 * i * 1000);

        match map.get(&(100 * i, 1000 * i, 10000 * i)) {
            None => panic!("item not get."),
            Some(e) => e.release(),
        }
    }

    for i in 1..11 {
        if let Some(e) = map.get(&(100 * i, 1000 * i, 10000 * i)) {
            assert_eq!(999 * i, *e);
            e.release();
        } else {
            assert!(false);
        }
    }
}

#[test]
fn test_insert_and_get_mut_and_conatins() {
    let map = ConcurrentFixedHashMap::with_size(1 << 12);

    for i in 1..11 {
        map.insert((100 * i, 1000 * i, 10000 * i), 999 * i);

        match map.get(&(100 * i, 1000 * i, 10000 * i)) {
            None => panic!("item not get."),
            Some(e) => e.release(),
        }
    }

    for i in 1..11 {
        if let Some(mut e) = map.get_mut(&(100 * i, 1000 * i, 10000 * i)) {
            *e = *e * 100;
            e.release();
        }
    }

    for i in 1..11 {
        assert!(map.contains_key(&(100 * i, 1000 * i, 10000 * i)));
    }
}

#[test]
fn with_size_builds_the_requested_number_of_empty_shards() {
    let map: ConcurrentFixedHashMap<Key, i32> = ConcurrentFixedHashMap::with_size(37);
    assert_eq!(map.shard_count(), 37);
    for index in 0..map.shard_count() {
        assert_eq!(map.shard_occupancy(index), 0);
    }
    assert!(!map.contains_key(&(1, 2, 3)));
    assert!(map.get(&(1, 2, 3)).is_none());
    assert!(map.get_mut(&(1, 2, 3)).is_none());
}

#[test]
fn shard_of_a_key_is_stable_and_in_range() {
    let map: ConcurrentFixedHashMap<Key, i32> = ConcurrentFixedHashMap::with_size(16);
    for i in 0..200 {
        let key = (i, 7 * i, -i);
        let first = map.shard_for(&key);
        let second = map.shard_for(&key);
        assert_eq!(first, second);
        assert!(first < 16);
    }
}

#[test]
fn insert_then_get_yields_the_value() {
    let map: ConcurrentFixedHashMap<Key, i32> = ConcurrentFixedHashMap::with_size(8);
    assert_eq!(map.insert((1, 2, 3), 41), None);
    assert_eq!(read(&map, &(1, 2, 3)), Some(41));
    assert!(map.contains_key(&(1, 2, 3)));
}

#[test]
fn second_insert_returns_the_first_value_and_replaces_it() {
    let map: ConcurrentFixedHashMap<Key, i32> = ConcurrentFixedHashMap::with_size(8);
    assert_eq!(map.insert((1, 2, 3), 10), None);
    assert_eq!(map.insert((1, 2, 3), 20), Some(10));
    assert_eq!(read(&map, &(1, 2, 3)), Some(20));
    assert_eq!(map.insert((1, 2, 3), 30), Some(20));
    assert_eq!(read(&map, &(1, 2, 3)), Some(30));
}

#[test]
fn insert_new_does_not_clobber() {
    let map: ConcurrentFixedHashMap<Key, i32> = ConcurrentFixedHashMap::with_size(8);
    assert_eq!(map.insert((1, 2, 3), 10), None);
    map.insert_new((1, 2, 3), 20);
    assert_eq!(read(&map, &(1, 2, 3)), Some(10));
    map.insert_new((4, 5, 6), 60);
    assert_eq!(read(&map, &(4, 5, 6)), Some(60));
}

#[test]
fn write_through_the_accessor_is_seen_by_later_reads() {
    let map: ConcurrentFixedHashMap<Key, i32> = ConcurrentFixedHashMap::with_size(8);
    map.insert((1, 2, 3), 999);
    let mut guard = map.get_mut(&(1, 2, 3)).expect("item not get.");
    assert_eq!(*guard, 999);
    *guard = *guard * 100;
    assert_eq!(*guard, 99900);
    guard.release();
    assert_eq!(read(&map, &(1, 2, 3)), Some(99900));
}

#[test]
fn keys_never_inserted_are_absent() {
    let map: ConcurrentFixedHashMap<Key, i32> = ConcurrentFixedHashMap::with_size(4);
    for i in 0..50 {
        map.insert((i, i, i), i);
    }
    for i in 50..100 {
        assert!(!map.contains_key(&(i, i, i)));
        assert!(map.get(&(i, i, i)).is_none());
        assert!(map.get_mut(&(i, i, i)).is_none());
    }
    for i in 0..50 {
        assert_eq!(read(&map, &(i, i, i)), Some(i));
    }
}

#[test]
fn one_shard_holds_every_key_and_tells_them_apart() {
    let map: ConcurrentFixedHashMap<Key, i32> = ConcurrentFixedHashMap::with_size(1);
    map.insert((1, 1, 1), 1);
    assert_eq!(map.shard_occupancy(0), 1);
    assert!(map.contains_key(&(1, 1, 1)));
    assert!(!map.contains_key(&(2, 2, 2)));
    assert!(map.get(&(2, 2, 2)).is_none());
    map.insert((2, 2, 2), 2);
    assert_eq!(map.shard_occupancy(0), 2);
    assert_eq!(read(&map, &(1, 1, 1)), Some(1));
    assert_eq!(read(&map, &(2, 2, 2)), Some(2));
}

#[test]
fn occupancy_counts_new_entries_only() {
    let map: ConcurrentFixedHashMap<Key, i32> = ConcurrentFixedHashMap::with_size(8);
    let key = (3, 1, 4);
    let shard = map.shard_for(&key);
    assert!(shard < map.shard_count());
    assert_eq!(map.shard_occupancy(shard), 0);
    map.insert(key, 1);
    assert_eq!(map.shard_occupancy(shard), 1);
    map.insert(key, 2);
    assert_eq!(map.shard_occupancy(shard), 1);
    map.insert_new(key, 3);
    assert_eq!(map.shard_occupancy(shard), 1);
    assert_eq!(read(&map, &key), Some(2));
    let total: usize = (0..map.shard_count()).map(|index| map.shard_occupancy(index)).sum();
    assert_eq!(total, 1);
}

#[test]
fn readers_share_a_shard() {
    let map: ConcurrentFixedHashMap<Key, i32> = ConcurrentFixedHashMap::with_size(1);
    map.insert((1, 1, 1), 10);
    map.insert((2, 2, 2), 20);
    let first = map.get(&(1, 1, 1)).expect("item not get.");
    let second = map.get(&(2, 2, 2)).expect("item not get.");
    assert_eq!(*first + *second, 30);
    first.release();
    second.release();
    assert_eq!(map.insert((1, 1, 1), 11), Some(10));
}

#[test]
fn string_keys_and_owned_values() {
    let map: ConcurrentFixedHashMap<String, Vec<u8>> = ConcurrentFixedHashMap::with_size(5);
    assert_eq!(map.insert(String::from("alpha"), vec![1]), None);
    assert_eq!(map.insert(String::from("alpha"), vec![2, 3]), Some(vec![1]));
    let mut guard = map.get_mut(&String::from("alpha")).expect("item not get.");
    guard.push(4);
    guard.release();
    let guard = map.get(&String::from("alpha")).expect("item not get.");
    assert_eq!(*guard, vec![2, 3, 4]);
    guard.release();
    assert!(!map.contains_key(&String::from("beta")));
}

#[test]
fn a_held_guard_blocks_no_other_shard() {
    let map: ConcurrentFixedHashMap<Key, i32> = ConcurrentFixedHashMap::with_size(2);
    let first = (0, 0, 0);
    let mut second = (1, 0, 0);
    while map.shard_for(&second) == map.shard_for(&first) {
        second.0 += 1;
    }
    map.insert(first, 1);
    let mut held = map.get_mut(&first).expect("item not get.");
    assert_eq!(map.insert(second, 2), None);
    assert_eq!(read(&map, &second), Some(2));
    map.insert_new(second, 3);
    assert!(map.contains_key(&second));
    *held += 10;
    held.release();
    assert_eq!(read(&map, &first), Some(11));
    assert_eq!(read(&map, &second), Some(2));
}

#[test]
fn ten_keys_each_read_back_their_own_value() {
    let map: ConcurrentFixedHashMap<Key, i32> = ConcurrentFixedHashMap::with_size(3);
    for i in 1..11 {
        assert_eq!(map.insert((100 * i, 1000 * i, 10000 * i), 999 * i), None);
        assert_eq!(read(&map, &(100 * i, 1000 * i, 10000 * i)), Some(999 * i));
    }
    for i in 1..11 {
        assert_eq!(read(&map, &(100 * i, 1000 * i, 10000 * i)), Some(999 * i));
    }
    let total: usize = (0..map.shard_count()).map(|index| map.shard_occupancy(index)).sum();
    assert_eq!(total, 10);
}

fn shareable<T: Send + Sync>() {}

#[test]
fn map_and_guards_can_cross_threads() {
    shareable::<ConcurrentFixedHashMap<Key, i32>>();
    shareable::<Arc<ConcurrentFixedHashMap<String, Vec<u8>>>>();
    shareable::<ReadGuard<'static, Key, i32>>();
    shareable::<WriteGuard<'static, Key, i32>>();
}
