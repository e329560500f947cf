use vecstore::lru::EvictStrategy;
use vecstore::lru::LRUCache;
use vecstore::lru::ProbEviction;
use vecstore::lru::counter_age;

#[test]
fn test_basic_usage() {
    let mut cache: LRUCache<&'static str> = LRUCache::new(2, EvictStrategy::Immediate);

    cache.insert(1, "value1");
    cache.insert(2, "value2");

    match cache.get(&1) {
        Some(v) => assert_eq!("value1", v),
        None => assert!(false),
    }

    cache.insert(3, "value3"); // This should evict key 2

    match cache.get(&3) {
        Some(v) => assert_eq!("value3", v),
        None => assert!(false),
    }

    // Verify that key 2 is evicted
    assert_eq!(2, cache.len());
    assert!(cache.get(&2).is_none());
}

#[test]
fn test_get_or_insert() {
    let mut cache: LRUCache<&'static str> = LRUCache::new(2, EvictStrategy::Immediate);

    // Insert two values through the factory, verifying that the
    // method returns the correct value
    let x = cache.get_or_insert(1, || Ok("value1"));
    assert_eq!("value1", x.unwrap());
    assert_eq!(1, cache.len());

    let y = cache.get_or_insert(2, || Ok("value2"));
    assert_eq!("value2", y.unwrap());
    assert_eq!(2, cache.len());

    // Try getting key 1 again. The factory must not run this time.
    let x1 = cache.get_or_insert(1, || {
        assert!(false);
        Err(vecstore::buffer::BufIoError::Locking)
    });
    assert!(x1.is_ok_and(|x| x == "value1"));

    // Insert a third value. It will cause key 2 to be evicted
    let z = cache.get_or_insert(3, || Ok("value3"));
    assert_eq!("value3", z.unwrap());

    // Verify that key 2 is evicted
    assert_eq!(2, cache.len());
    assert!(cache.get(&2).is_none());

    // Verify that an error during insertion doesn't evict anything
    match cache.get_or_insert(4, || Err(vecstore::buffer::BufIoError::Locking)) {
        Err(vecstore::buffer::BufIoError::Locking) => assert!(true),
        _ => assert!(false),
    }
    assert_eq!(2, cache.len());
}

#[test]
fn test_values_iterator() {
    let mut cache: LRUCache<&'static str> = LRUCache::new(4, EvictStrategy::Immediate);

    cache.insert(1, "value1");
    cache.insert(2, "value2");
    cache.insert(3, "value3");
    cache.insert(4, "value4");

    let mut values: Vec<&'static str> = Vec::new();
    let mut it = cache.values();
    loop {
        match it.next() {
            Some(v) => values.push(v),
            None => break,
        }
    }
    values.sort();
    assert_eq!(vec!["value1", "value2", "value3", "value4"], values);
}

#[test]
fn lru_eviction_order() {
    // Capacity 2, Immediate strategy: insert (k1,v1), (k2,v2), touch
    // k1, insert (k3,v3); the map holds {k1, k3} and k2 is gone.
    let mut cache: LRUCache<u32> = LRUCache::new(2, EvictStrategy::Immediate);
    cache.insert(1, 11);
    cache.insert(2, 22);
    assert_eq!(cache.get(&1), Some(11));
    cache.insert(3, 33);
    assert_eq!(cache.len(), 2);
    assert_eq!(cache.get(&1), Some(11));
    assert_eq!(cache.get(&3), Some(33));
    assert_eq!(cache.get(&2), None);
}

#[test]
fn counter_age_wraparound() {
    // Without wraparound the age is the plain difference.
    assert_eq!(counter_age(1000, 400), 600);
    assert_eq!(counter_age(7, 7), 0);
    // With wraparound the age is (global - stamp) mod 2^32.
    assert_eq!(counter_age(5, u32::MAX), 6);
    assert_eq!(counter_age(0, 1), u32::MAX);
    assert_eq!(counter_age(0, u32::MAX), 1);
}

#[test]
fn prob_eviction_trigger_every_call() {
    // With frequency 1 the random draw is always 1 and 1 % 1 == 0, so
    // the trigger always fires; this exercises the random wrapper.
    let prob = ProbEviction::new(1);
    for _ in 0..32 {
        assert!(prob.should_trigger());
    }
    assert_eq!(prob.lambda_micros, 10000);
}

#[test]
fn cache_never_exceeds_capacity() {
    let mut cache: LRUCache<u64> = LRUCache::new(3, EvictStrategy::Immediate);
    for k in 0..100u64 {
        cache.insert(k, k * 10);
        assert!(cache.len() <= 3);
    }
}

#[test]
fn probabilistic_eviction_sweep() {
    let mut cache: LRUCache<u64> = LRUCache::new(2, EvictStrategy::Probabilistic(ProbEviction::new(4)));
    cache.insert(1, 1);
    cache.insert(2, 2);
    cache.insert(3, 3);
    cache.insert(4, 4);
    // The probabilistic strategy does not evict on insert.
    assert_eq!(cache.len(), 4);
    // A sweep with all-true decisions trims back to capacity.
    let decisions = vec![true, true, true, true];
    cache.evict_lru_probabilistic(&decisions);
    assert_eq!(cache.len(), 2);
}
