use fifo_cache::FifoCache;
use std::sync::Arc;

#[test]
fn it_works() {
    let mut cache = FifoCache::<usize, usize>::new(2);
    // test empty cache
    assert_eq!(cache.get(&0), None);
    // insert entry
    assert_eq!(cache.insert(1, 1), None);
    // insert entry
    assert_eq!(cache.insert(2, 2), None);
    // this will update the entry
    assert_eq!(cache.insert(2, 4), Some(Arc::new(2)));
    // this will flush out the first entry
    assert_eq!(cache.insert(3, 3), None);
    // entry 1 is flushed out
    assert_eq!(cache.get(&1), None);
}

#[test]
fn capacity_two_walkthrough() {
    let mut cache = FifoCache::<usize, usize>::new(2);
    assert_eq!(cache.get(&0), None);
    assert_eq!(cache.insert(1, 1), None);
    assert_eq!(cache.insert(2, 2), None);
    assert_eq!(cache.insert(2, 4), Some(Arc::new(2)));
    assert_eq!(cache.insert(3, 3), None);
    assert_eq!(cache.get(&1), None);
    assert_eq!(cache.get(&2), Some(Arc::new(4)));
    assert_eq!(cache.get(&3), Some(Arc::new(3)));
}

#[test]
fn fresh_cache_holds_nothing() {
    for capacity in [1usize, 2, 3, 17, 1024] {
        let cache = FifoCache::<u32, u32>::new(capacity);
        for key in [0u32, 1, 2, 16, 17, 1023, 1024, u32::MAX] {
            assert_eq!(cache.get(&key), None);
        }
    }
}

#[test]
fn never_more_live_keys_than_capacity() {
    for capacity in 1usize..6 {
        let mut cache = FifoCache::<u32, u32>::new(capacity);
        for step in 0u32..40 {
            // every third insert updates a key that may still be live
            let key = if step % 3 == 2 { step - 1 } else { step };
            cache.insert(key, step);
            let live = (0u32..40).filter(|k| cache.get(k).is_some()).count();
            assert!(live <= capacity);
        }
        let live = (0u32..40).filter(|k| cache.get(k).is_some()).count();
        assert_eq!(live, capacity);
    }
}

#[test]
fn first_in_is_first_out() {
    let capacity = 4usize;
    let mut cache = FifoCache::<u64, u64>::new(capacity);
    for key in 1u64..=5 {
        assert_eq!(cache.insert(key, key * 10), None);
    }
    assert_eq!(cache.get(&1), None);
    for key in 2u64..=5 {
        assert_eq!(cache.get(&key), Some(Arc::new(key * 10)));
    }
}

#[test]
fn only_the_newest_keys_stay() {
    let mut cache = FifoCache::<u64, u64>::new(3);
    for key in 0u64..10 {
        assert_eq!(cache.insert(key, key + 100), None);
    }
    for key in 0u64..7 {
        assert_eq!(cache.get(&key), None);
    }
    for key in 7u64..10 {
        assert_eq!(cache.get(&key), Some(Arc::new(key + 100)));
    }
}

#[test]
fn update_returns_prior_value() {
    let mut cache = FifoCache::<u8, u32>::new(3);
    assert_eq!(cache.insert(7, 70), None);
    assert_eq!(cache.insert(7, 71), Some(Arc::new(70)));
    assert_eq!(cache.insert(7, 72), Some(Arc::new(71)));
    assert_eq!(cache.get(&7), Some(Arc::new(72)));
}

#[test]
fn snapshot_survives_update_and_eviction() {
    let mut cache = FifoCache::<u8, Vec<u8>>::new(1);
    assert_eq!(cache.insert(1, vec![1, 2, 3]), None);
    let before = cache.get(&1).unwrap();
    let displaced = cache.insert(1, vec![4]).unwrap();
    assert_eq!(*before, vec![1, 2, 3]);
    assert_eq!(*displaced, vec![1, 2, 3]);
    assert!(Arc::ptr_eq(&before, &displaced));
    let current = cache.get(&1).unwrap();
    assert_eq!(*current, vec![4]);
    assert_eq!(cache.insert(2, vec![5]), None);
    assert_eq!(cache.get(&1), None);
    assert_eq!(*before, vec![1, 2, 3]);
    assert_eq!(*current, vec![4]);
}

#[test]
fn update_does_not_refresh_order() {
    let mut cache = FifoCache::<u32, u32>::new(2);
    assert_eq!(cache.insert(1, 10), None);
    assert_eq!(cache.insert(2, 20), None);
    // key 1 is the oldest and stays the oldest after its update
    assert_eq!(cache.insert(1, 11), Some(Arc::new(10)));
    assert_eq!(cache.insert(3, 30), None);
    assert_eq!(cache.get(&1), None);
    assert_eq!(cache.get(&2), Some(Arc::new(20)));
    assert_eq!(cache.get(&3), Some(Arc::new(30)));
}

#[test]
fn reads_do_not_refresh_order() {
    let mut cache = FifoCache::<u32, u32>::new(2);
    cache.insert(1, 10);
    cache.insert(2, 20);
    for _ in 0..5 {
        assert_eq!(cache.get(&1), Some(Arc::new(10)));
    }
    cache.insert(3, 30);
    assert_eq!(cache.get(&1), None);
    assert_eq!(cache.get(&2), Some(Arc::new(20)));
}

#[test]
fn repeated_reads_agree() {
    let mut cache = FifoCache::<u32, String>::new(2);
    cache.insert(1, String::from("one"));
    let first = cache.get(&1);
    let second = cache.get(&1);
    assert_eq!(first, second);
    assert_eq!(first, Some(Arc::new(String::from("one"))));
    assert!(Arc::ptr_eq(first.as_ref().unwrap(), second.as_ref().unwrap()));
    assert_eq!(cache.get(&2), None);
    assert_eq!(cache.get(&2), None);
}

#[test]
fn capacity_one_keeps_the_last_key() {
    let mut cache = FifoCache::<i64, i64>::new(1);
    assert_eq!(cache.insert(-1, 1), None);
    assert_eq!(cache.insert(-1, 2), Some(Arc::new(1)));
    assert_eq!(cache.insert(5, 3), None);
    assert_eq!(cache.get(&-1), None);
    assert_eq!(cache.get(&5), Some(Arc::new(3)));
    assert_eq!(cache.insert(-1, 4), None);
    assert_eq!(cache.get(&5), None);
    assert_eq!(cache.get(&-1), Some(Arc::new(4)));
}

#[test]
fn evicted_key_comes_back_as_new() {
    let mut cache = FifoCache::<u32, u32>::new(2);
    cache.insert(1, 10);
    cache.insert(2, 20);
    cache.insert(3, 30);
    // key 1 was driven out, so this is a miss that drives out key 2
    assert_eq!(cache.insert(1, 12), None);
    assert_eq!(cache.get(&2), None);
    assert_eq!(cache.get(&3), Some(Arc::new(30)));
    assert_eq!(cache.get(&1), Some(Arc::new(12)));
    // and key 3 is now the oldest
    assert_eq!(cache.insert(4, 40), None);
    assert_eq!(cache.get(&3), None);
    assert_eq!(cache.get(&1), Some(Arc::new(12)));
}

#[test]
fn keys_that_own_memory() {
    let mut cache = FifoCache::<String, usize>::new(2);
    assert_eq!(cache.insert(String::from("a"), 1), None);
    assert_eq!(cache.insert(String::from("b"), 2), None);
    assert_eq!(cache.insert(String::from("a"), 3), Some(Arc::new(1)));
    assert_eq!(cache.insert(String::from("c"), 4), None);
    assert_eq!(cache.get(&String::from("a")), None);
    assert_eq!(cache.get(&String::from("b")), Some(Arc::new(2)));
    assert_eq!(cache.get(&String::from("c")), Some(Arc::new(4)));
}

#[test]
fn debug_output_names_the_cache() {
    let cache = FifoCache::<u8, u8>::new(1);
    assert!(format!("{:?}", cache).contains("FifoCache"));
}
