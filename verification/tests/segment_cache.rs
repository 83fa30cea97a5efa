use std::rc::Rc;

use shard::segment_cache::ServedSegmentCache;

fn payload(len: usize) -> Rc<Vec<u8>> {
    Rc::new(vec![1; len])
}

fn keys(cache: &ServedSegmentCache) -> Vec<(u64, u64)> {
    let mut keys: Vec<(u64, u64)> = cache.entries.iter().map(|entry| (entry.namespace, entry.checksum)).collect();
    keys.sort_unstable();
    keys
}

#[test]
fn inserted_payload_is_resident() {
    let mut cache = ServedSegmentCache::new();
    cache.insert(1, 10, payload(4), 100);
    assert_eq!(cache.get(1, 10).map(|bytes| bytes.len()), Some(4));
    assert!(cache.get(1, 11).is_none());
    assert!(cache.get(2, 10).is_none());
    assert_eq!(cache.resident_bytes, 4);
}

#[test]
fn insert_evicts_the_least_recently_used_first() {
    let mut cache = ServedSegmentCache::new();
    cache.insert(1, 10, payload(4), 10);
    cache.insert(1, 11, payload(4), 10);
    assert!(cache.get(1, 10).is_some());
    cache.insert(1, 12, payload(4), 10);
    assert_eq!(keys(&cache), vec![(1, 10), (1, 12)]);
    assert_eq!(cache.resident_bytes, 8);
}

#[test]
fn fitting_insert_evicts_nothing() {
    let mut cache = ServedSegmentCache::new();
    cache.insert(1, 10, payload(4), 12);
    cache.insert(2, 11, payload(4), 12);
    cache.insert(3, 12, payload(4), 12);
    assert_eq!(keys(&cache).len(), 3);
}

#[test]
fn oversize_payload_is_held_alone() {
    let mut cache = ServedSegmentCache::new();
    cache.insert(1, 10, payload(4), 10);
    cache.insert(1, 11, payload(40), 10);
    assert_eq!(keys(&cache), vec![(1, 11)]);
    assert_eq!(cache.resident_bytes, 40);
}

#[test]
fn inserting_again_replaces_the_payload() {
    let mut cache = ServedSegmentCache::new();
    cache.insert(1, 10, payload(4), 100);
    cache.insert(1, 10, payload(6), 100);
    assert_eq!(cache.entries.len(), 1);
    assert_eq!(cache.resident_bytes, 6);
}

#[test]
fn evicted_namespace_is_gone() {
    let mut cache = ServedSegmentCache::new();
    cache.insert(1, 10, payload(4), 100);
    cache.insert(1, 11, payload(5), 100);
    cache.insert(2, 10, payload(6), 100);
    cache.evict_namespace(1);
    assert_eq!(keys(&cache), vec![(2, 10)]);
    assert_eq!(cache.resident_bytes, 6);
}

#[test]
fn idle_payload_expires_and_a_used_one_does_not() {
    let mut cache = ServedSegmentCache::new();
    cache.insert(1, 10, payload(4), 100);
    cache.insert(1, 11, payload(4), 100);
    for _ in 0..3 {
        assert!(cache.get(1, 11).is_some());
        cache.expire_idle(3);
    }
    assert!(cache.get(1, 11).is_some());
    cache.expire_idle(3);
    assert_eq!(keys(&cache), vec![(1, 11)]);
    assert_eq!(cache.resident_bytes, 4);
}

#[test]
fn full_use_counter_still_makes_the_payload_resident() {
    let mut cache = ServedSegmentCache::new();
    cache.insert(1, 10, payload(4), 10);
    cache.use_seq = u64::MAX;
    cache.insert(1, 11, payload(4), 10);
    assert_eq!(cache.use_seq, 0);
    cache.insert(1, 12, payload(4), 10);
    assert!(cache.get(1, 12).is_some());
    assert_eq!(cache.entries.len(), 2);
    assert_eq!(cache.resident_bytes, 8);
    cache.sweeps = u64::MAX;
    cache.expire_idle(3);
    assert_eq!(cache.sweeps, 0);
    assert_eq!(cache.entries.len(), 2);
}
