//! Tests for the FNV-hashed open-addressing map.

use bump_allocator::hash_map::FnvHasher;
use bump_allocator::hash_map::HashMap;
use bump_allocator::hash_map::BUCKET_INIT_SIZE;
use bump_allocator::hash_map::FNV_SEED;

#[test]
fn hasher_of_nothing_is_the_seed() {
    let mut h = FnvHasher(FNV_SEED);
    h.write(&[]);
    assert_eq!(h.finish(), FNV_SEED);
}

#[test]
fn hasher_folds_one_byte() {
    let mut h = FnvHasher(FNV_SEED);
    h.write(&[0xab]);
    assert_eq!(h.finish(), 0xaf64264c86026a4a);
}

#[test]
fn hasher_folds_incrementally() {
    // Hashing a slice in two writes equals hashing it in one.
    let mut one = FnvHasher(FNV_SEED);
    one.write(&[1, 2, 3, 4]);
    let mut two = FnvHasher(FNV_SEED);
    two.write(&[1, 2]);
    two.write(&[3, 4]);
    assert_eq!(one.finish(), two.finish());
}

#[test]
fn hash_key_folds_little_endian_bytes() {
    let map: HashMap<u64> = HashMap::new();
    assert_eq!(map.hash_key(&0), 0xa8c7f832281a39c5);
    assert_eq!(map.hash_key(&0x0123456789abcdef), 0x37eb3f3347761c55);
    // The same value through the hasher directly, from the key's bytes.
    let mut h = FnvHasher(FNV_SEED);
    h.write(&0x0123456789abcdef_u64.to_le_bytes());
    assert_eq!(map.hash_key(&0x0123456789abcdef), h.finish());
}

#[test]
fn new_map_is_empty() {
    let map: HashMap<u64> = HashMap::new();
    assert_eq!(map.size, 0);
    assert_eq!(map.capacity, BUCKET_INIT_SIZE);
    assert_eq!(map.data.len(), BUCKET_INIT_SIZE);
    let mut it = map.iter();
    assert!(it.next().is_none());
}

#[test]
fn should_expand_at_half_full() {
    let mut map: HashMap<u64> = HashMap::new();
    for k in 0..3_u64 {
        map.insert(k, k * 10);
    }
    // 3 of 8 slots: below half.
    assert!(!map.should_expand());
    map.insert(3, 30);
    // 4 of 8 slots: at half.
    assert!(map.should_expand());
}

#[test]
fn insert_grows_and_keeps_entries() {
    let mut map: HashMap<u64> = HashMap::new();
    for k in 0..5_u64 {
        map.insert(k, 100 + k);
    }
    // The fifth insertion found the map half full and doubled the buckets.
    assert_eq!(map.capacity, 16);
    assert_eq!(map.size, 5);

    let mut found: Vec<(u64, u64)> = Vec::new();
    let mut it = map.iter();
    while let Some(e) = it.next() {
        found.push(*e);
    }
    found.sort();
    assert_eq!(found, vec![(0, 100), (1, 101), (2, 102), (3, 103), (4, 104)]);
}

#[test]
fn insert_keeps_duplicate_keys() {
    let mut map: HashMap<u64> = HashMap::new();
    map.insert(7, 1);
    map.insert(7, 2);
    assert_eq!(map.size, 2);
    let mut values: Vec<u64> = Vec::new();
    let mut it = map.iter();
    while let Some(e) = it.next() {
        assert_eq!(e.0, 7);
        values.push(e.1);
    }
    values.sort();
    assert_eq!(values, vec![1, 2]);
}

#[test]
fn iter_walks_slots_in_order() {
    let map: HashMap<u64> = HashMap {
        data: vec![None, Some((5, 50)), None, Some((2, 20)), None, None, None, Some((9, 90))],
        capacity: 8,
        size: 3,
    };
    let mut it = map.iter();
    assert_eq!(it.next(), Some(&(5, 50)));
    assert_eq!(it.next(), Some(&(2, 20)));
    assert_eq!(it.next(), Some(&(9, 90)));
    assert_eq!(it.next(), None);
    assert_eq!(it.next(), None);
}
