use fliplru::LruCache;

#[test]
fn zero_capacity_is_rejected() {
    assert!(LruCache::<u32, u32>::new(0).is_none());
    assert!(LruCache::<u32, u32>::new(1).is_some());
}

#[test]
fn new_cache_is_empty() {
    let cache: LruCache<isize, &str> = LruCache::new(10).unwrap();
    assert_eq!(cache.cap(), 10);
    assert_eq!(cache.len(), 0);
    assert!(cache.is_empty());
    assert_eq!(cache.get_flips(), 0);
}

#[test]
fn update_then_flip_then_read() {
    let mut cache = LruCache::new(2).unwrap();
    assert_eq!(cache.put(1, "a"), None);
    assert_eq!(cache.put(2, "b"), None);
    assert_eq!(cache.put(2, "c"), Some("b"));
    assert_eq!(cache.put(3, "d"), None);
    assert_eq!(cache.get(&2), Some(&"c"));
    assert_eq!(cache.get(&3), Some(&"d"));
}

#[test]
fn update_of_full_generation_flips() {
    let mut cache = LruCache::new(2).unwrap();
    assert_eq!(None, cache.put(1, "a"));
    assert_eq!(None, cache.put(2, "b"));
    assert_eq!(cache.get_flips(), 0);
    assert_eq!(Some("b"), cache.put(2, "beta"));
    assert_eq!(cache.get_flips(), 1);
    assert_eq!(cache.get(&1), Some(&"a"));
    assert_eq!(cache.get(&2), Some(&"beta"));
}

#[test]
fn spillover_is_read_from_previous_generation() {
    let mut cache = LruCache::new(2).unwrap();
    cache.put("apple", 1);
    cache.put("banana", 2);
    cache.put("pear", 3);
    assert_eq!(cache.get_flips(), 1);
    assert_eq!(cache.get(&"apple"), Some(&1));
    assert_eq!(cache.get_flips(), 1);
    assert_eq!(cache.get(&"banana"), Some(&2));
    assert_eq!(cache.get_flips(), 2);
}

#[test]
fn len_counts_up_to_capacity() {
    let mut cache = LruCache::new(2).unwrap();
    assert_eq!(cache.len(), 0);
    cache.put(1, "a");
    assert_eq!(cache.len(), 1);
    cache.put(2, "b");
    assert_eq!(cache.len(), 2);
    cache.put(3, "c");
    assert_eq!(cache.len(), 2);
    cache.put(4, "d");
    assert_eq!(cache.len(), 2);
}

#[test]
fn len_stays_within_capacity_after_every_write() {
    let mut cache = LruCache::new(3).unwrap();
    for i in 0..50u32 {
        cache.put(i % 7, i);
        assert!(cache.len() <= cache.cap());
        assert!(!cache.is_empty());
    }
    assert_eq!(cache.len(), 3);
}

#[test]
fn is_empty_until_first_write() {
    let mut cache = LruCache::new(2).unwrap();
    assert!(cache.is_empty());
    assert_eq!(cache.get(&1), None);
    assert!(cache.is_empty());
    cache.put(1, "a");
    assert!(!cache.is_empty());
}

#[test]
fn last_writes_are_retained() {
    let cap: usize = 4;
    let mut cache = LruCache::new(cap).unwrap();
    for i in 0..23u64 {
        cache.put(i, i * 10);
    }
    for i in 19..23u64 {
        assert_eq!(cache.get(&i), Some(&(i * 10)));
    }
}

#[test]
fn recent_write_survives_repeated_other_keys() {
    let mut cache = LruCache::new(3).unwrap();
    cache.put("kept", 1);
    for i in 0..10 {
        cache.put("x", i);
        cache.put("y", i);
    }
    assert_eq!(cache.put("kept", 2), Some(1));
}

#[test]
fn two_generations_hold_twice_the_capacity() {
    let mut cache = LruCache::new(3).unwrap();
    for i in 0..6u8 {
        assert_eq!(cache.put(i, i + 100), None);
    }
    assert_eq!(cache.get_flips(), 1);
    assert_eq!(cache.len(), 3);
    assert_eq!(cache.get(&0), Some(&100));
    assert_eq!(cache.get_flips(), 2);
    assert_eq!(cache.get(&1), None);
    assert_eq!(cache.get(&2), None);
    assert_eq!(cache.get(&3), Some(&103));
    assert_eq!(cache.get(&4), Some(&104));
    assert_eq!(cache.get(&5), Some(&105));
}

#[test]
fn third_generation_drops_the_first() {
    let mut cache = LruCache::new(2).unwrap();
    for i in 0..4u8 {
        cache.put(i, i);
    }
    assert_eq!(cache.put(9, 9), None);
    assert_eq!(cache.get_flips(), 2);
    assert_eq!(cache.get(&0), None);
    assert_eq!(cache.get(&1), None);
    assert_eq!(cache.get(&2), Some(&2));
}

#[test]
fn put_returns_value_from_previous_generation() {
    let mut cache = LruCache::new(2).unwrap();
    cache.put("a", 1);
    cache.put("b", 2);
    cache.put("c", 3);
    assert_eq!(cache.put("a", 10), Some(1));
    assert_eq!(cache.get_flips(), 1);
    assert_eq!(cache.get(&"a"), Some(&10));
    assert_eq!(cache.len(), 2);
}

#[test]
fn put_that_flips_loses_previous_generation_value() {
    let mut cache = LruCache::new(2).unwrap();
    cache.put("a", 1);
    cache.put("b", 2);
    cache.put("c", 3);
    cache.put("d", 4);
    assert_eq!(cache.put("a", 10), None);
    assert_eq!(cache.get_flips(), 2);
}

#[test]
fn put_on_new_key_returns_none() {
    let mut cache = LruCache::new(1).unwrap();
    assert_eq!(cache.put(1, 1), None);
    assert_eq!(cache.put(2, 2), None);
    assert_eq!(cache.put(3, 3), None);
    assert_eq!(cache.get_flips(), 2);
}

#[test]
fn promotion_happens_once() {
    let mut cache = LruCache::new(3).unwrap();
    cache.put(1, "one");
    cache.put(2, "two");
    cache.put(3, "three");
    cache.put(4, "four");
    assert_eq!(cache.get_flips(), 1);
    assert_eq!(cache.get(&1), Some(&"one"));
    let len: usize = cache.len();
    let flips: usize = cache.get_flips();
    assert_eq!(cache.get(&1), Some(&"one"));
    assert_eq!(cache.get(&1), Some(&"one"));
    assert_eq!(cache.len(), len);
    assert_eq!(cache.get_flips(), flips);
}

#[test]
fn promoted_entry_outlives_the_next_flip() {
    let mut cache = LruCache::new(2).unwrap();
    cache.put(1, "one");
    cache.put(2, "two");
    cache.put(3, "three");
    assert_eq!(cache.get(&1), Some(&"one"));
    cache.put(4, "four");
    assert_eq!(cache.get_flips(), 2);
    assert_eq!(cache.get(&1), Some(&"one"));
    assert_eq!(cache.get(&2), None);
}

#[test]
fn miss_changes_nothing() {
    let mut cache = LruCache::new(2).unwrap();
    cache.put(1, "one");
    cache.put(2, "two");
    cache.put(3, "three");
    assert_eq!(cache.get(&7), None);
    assert_eq!(cache.get_mut(&7), None);
    assert_eq!(cache.get_flips(), 1);
    assert_eq!(cache.len(), 2);
    assert_eq!(cache.get(&3), Some(&"three"));
}

#[test]
fn reset_keeps_entries() {
    let mut cache = LruCache::new(2).unwrap();
    for i in 0..5 {
        cache.put(i, i);
    }
    for i in 0..20 {
        cache.get(&(i % 5));
    }
    assert_eq!(cache.get_flips(), 8);
    let len: usize = cache.len();
    cache.reset();
    assert_eq!(cache.get_flips(), 0);
    assert_eq!(cache.len(), len);
    assert_eq!(cache.cap(), 2);
    assert_eq!(cache.get(&4), Some(&4));
}

#[test]
fn get_mut_reads_from_both_generations() {
    let mut cache = LruCache::new(2).unwrap();
    cache.put("apple", 8);
    cache.put("banana", 4);
    cache.put("banana", 6);
    cache.put("pear", 2);
    assert_eq!(cache.get_mut(&"apple"), Some(&mut 8));
    assert_eq!(cache.get_mut(&"banana"), Some(&mut 6));
    assert_eq!(cache.get_mut(&"pear"), Some(&mut 2));
}

#[test]
fn get_mut_changes_value_in_place() {
    let mut cache = LruCache::new(2).unwrap();
    cache.put("a", 1);
    cache.put("b", 2);
    if let Some(v) = cache.get_mut(&"a") {
        *v += 40;
    }
    assert_eq!(cache.get(&"a"), Some(&41));
    assert_eq!(cache.get(&"b"), Some(&2));
    assert_eq!(cache.get_flips(), 0);
}

#[test]
fn get_mut_promotes_then_changes() {
    let mut cache = LruCache::new(2).unwrap();
    cache.put("a", 1);
    cache.put("b", 2);
    cache.put("c", 3);
    if let Some(v) = cache.get_mut(&"b") {
        *v = 20;
    }
    assert_eq!(cache.get_flips(), 1);
    cache.put("d", 4);
    assert_eq!(cache.get_flips(), 2);
    assert_eq!(cache.get(&"b"), Some(&20));
    assert_eq!(cache.get(&"a"), None);
}

#[test]
fn promotion_removes_entry_from_previous_generation() {
    let mut cache = LruCache::new(3).unwrap();
    cache.put(1, "one");
    cache.put(2, "two");
    cache.put(3, "three");
    cache.put(4, "four");
    assert_eq!(cache.len(), 3);
    assert_eq!(cache.get(&1), Some(&"one"));
    assert_eq!(cache.put(1, "uno"), Some("one"));
    assert_eq!(cache.get(&1), Some(&"uno"));
    assert_eq!(cache.put(5, "five"), None);
    assert_eq!(cache.get_flips(), 1);
    assert_eq!(cache.put(6, "six"), None);
    assert_eq!(cache.get_flips(), 2);
    assert_eq!(cache.get(&1), Some(&"uno"));
    assert_eq!(cache.get(&2), None);
}

#[test]
fn string_keys_and_values() {
    let mut cache = LruCache::new(2).unwrap();
    assert_eq!(cache.put(String::from("k1"), String::from("v1")), None);
    assert_eq!(cache.put(String::from("k2"), String::from("v2")), None);
    assert_eq!(cache.put(String::from("k3"), String::from("v3")), None);
    assert_eq!(cache.get(&String::from("k1")), Some(&String::from("v1")));
    assert_eq!(cache.put(String::from("k1"), String::from("w1")), Some(String::from("v1")));
}

#[test]
fn recently_read_entry_survives_reads_and_writes() {
    let mut cache = LruCache::new(3).unwrap();
    cache.put("a", 1);
    cache.put("b", 2);
    cache.put("c", 3);
    cache.put("d", 4);
    assert_eq!(cache.get(&"a"), Some(&1));
    cache.put("e", 5);
    assert_eq!(cache.get(&"b"), Some(&2));
    assert_eq!(cache.get_flips(), 2);
    assert_eq!(cache.get(&"a"), Some(&1));
    assert_eq!(cache.get(&"c"), None);
}
