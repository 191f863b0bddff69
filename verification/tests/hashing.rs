use rust_bloom_filter::hashing::{round_hash, slot};
use rust_bloom_filter::BloomFilter;
use std::collections::hash_map::DefaultHasher;
use std::hash::{Hash, Hasher};

fn reference_hash(item: &str, round: usize) -> u64 {
    let mut hasher = DefaultHasher::new();
    hasher.write_usize(round);
    item.hash(&mut hasher);
    hasher.finish()
}

#[test]
fn slot_is_the_remainder() {
    assert_eq!(slot(23, 10), 3);
    assert_eq!(slot(0, 1), 0);
    assert_eq!(slot(99, 100), 99);
    assert_eq!(slot(100, 100), 0);
    assert_eq!(slot(u64::MAX, 7), 1);
    assert_eq!(slot(u64::MAX, 1), 0);
    assert_eq!(slot(5, usize::MAX), 5);
}

#[test]
fn round_hash_feeds_the_round_then_the_item() {
    for item in ["", "hello", "world", "rust", "a longer item"] {
        for round in [0usize, 1, 2, 7, usize::MAX] {
            assert_eq!(round_hash(item, round), reference_hash(item, round));
        }
    }
}

#[test]
fn round_hash_depends_on_the_round() {
    let zero = round_hash("hello", 0);
    let one = round_hash("hello", 1);
    let two = round_hash("hello", 2);
    assert_ne!(zero, one);
    assert_ne!(one, two);
    assert_ne!(zero, two);
    let mut plain = DefaultHasher::new();
    "hello".hash(&mut plain);
    assert_ne!(zero, plain.finish());
}

#[test]
fn round_hash_depends_on_the_item() {
    assert_ne!(round_hash("hello", 0), round_hash("world", 0));
    assert_ne!(round_hash("hello", 0), round_hash("hello ", 0));
    let mut round_only = DefaultHasher::new();
    round_only.write_usize(0);
    assert_ne!(round_hash("hello", 0), round_only.finish());
}

#[test]
fn round_hash_is_stable() {
    for item in ["hello", "world"] {
        for round in 0..4 {
            assert_eq!(round_hash(item, round), round_hash(item, round));
        }
    }
}

#[test]
fn hash_index_is_the_slot_of_the_round_hash() {
    for size in [1usize, 5, 100, 1 << 20] {
        let filter = BloomFilter::new(size, 3);
        for item in ["hello", "world", "rust"] {
            for round in 0..3 {
                let index = filter.hash_index(item, round);
                assert!(index < size);
                assert_eq!(index, slot(round_hash(item, round), size));
                assert_eq!(index as u64, reference_hash(item, round) % (size as u64));
            }
        }
    }
}

#[test]
fn rounds_spread_over_a_large_array() {
    let mut filter = BloomFilter::new(1 << 20, 3);
    filter.add("hello");
    let first = filter.hash_index("hello", 0);
    let second = filter.hash_index("hello", 1);
    let third = filter.hash_index("hello", 2);
    assert!(first != second || second != third);
    assert!(filter.is_set(first) && filter.is_set(second) && filter.is_set(third));
    assert!(!filter.check("world"));
}
