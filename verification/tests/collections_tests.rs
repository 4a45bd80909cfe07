use sailfish::bytes::{
    append_u32_le, append_u64_le, bytes_equal, bytes_precede, copy_range, u64_be, u64_from_be,
};
use sailfish::collections::{Key, Pair, SortedMap};
use sailfish::crypto::Digest;

#[test]
fn entries_are_kept_in_key_order() {
    let mut map: SortedMap<u64, &str> = SortedMap::new();
    assert!(map.insert(5, "five").is_none());
    assert!(map.insert(1, "one").is_none());
    assert!(map.insert(3, "three").is_none());
    assert_eq!(map.insert(3, "drei"), Some("three"));
    let entries: Vec<(u64, &str)> =
        (0..map.len()).map(|i| (map.key_at(i), *map.value_at(i))).collect();
    assert_eq!(entries, vec![(1, "one"), (3, "drei"), (5, "five")]);
    assert_eq!(map.get(&3), Some(&"drei"));
    assert_eq!(map.get(&4), None);
    assert_eq!(map.remove(&1), Some("one"));
    assert_eq!(map.remove(&1), None);
    assert!(!map.contains_key(&1));
    assert_eq!(map.len(), 2);
}

#[test]
fn a_copy_is_independent() {
    let mut map: SortedMap<u32, u8> = SortedMap::new();
    map.insert(1, 10);
    let copy = map.duplicate();
    map.insert(2, 20);
    assert_eq!(copy.len(), 1);
    assert_eq!(copy.get(&1), Some(&10));
    assert!(!map.is_empty());
}

#[test]
fn entries_below_a_bound_are_dropped() {
    let mut map: SortedMap<u64, ()> = SortedMap::new();
    for key in [7, 3, 9, 1] {
        map.insert(key, ());
    }
    map.drop_before(7);
    assert_eq!((0..map.len()).map(|i| map.key_at(i)).collect::<Vec<_>>(), vec![7, 9]);
    map.drop_before(100);
    assert!(map.is_empty());
}

#[test]
fn keys_are_ordered_like_their_content() {
    let low = Digest([0u8; 32]);
    let mut bytes = [0u8; 32];
    bytes[0] = 1;
    let high = Digest(bytes);
    assert!(low.precedes(&high));
    assert!(!high.precedes(&low));
    assert!(!low.precedes(&low));
    let pair = |first: u64, second: u64| Pair { first, second };
    assert!(pair(1, 9).precedes(&pair(2, 0)));
    assert!(pair(2, 0).precedes(&pair(2, 1)));
}

#[test]
fn numbers_are_written_in_the_stated_order() {
    let mut buffer = vec![0xff];
    append_u32_le(&mut buffer, 0x0102_0304);
    append_u64_le(&mut buffer, 1);
    assert_eq!(buffer, vec![0xff, 4, 3, 2, 1, 1, 0, 0, 0, 0, 0, 0, 0]);
    assert_eq!(u64_be(0x0102), vec![0, 0, 0, 0, 0, 0, 1, 2]);
    assert_eq!(u64_from_be(&u64_be(u64::MAX - 7)), u64::MAX - 7);
}

#[test]
fn byte_strings_are_compared() {
    assert!(bytes_equal(&[1, 2], &[1, 2]));
    assert!(!bytes_equal(&[1, 2], &[1, 2, 3]));
    assert!(bytes_precede(&[1, 2], &[1, 3]));
    assert!(!bytes_precede(&[1, 3], &[1, 3]));
    assert_eq!(copy_range(&[5, 6, 7, 8], 1, 3), vec![6, 7]);
}
