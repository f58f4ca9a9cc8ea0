use hashset::Element;
use hashset::HashSet;
use hashset::Probe;
use std::collections::hash_map::DefaultHasher;
use std::hash::Hasher;

/// The slot of `x` in a table of `capacity` slots.
fn slot(x: i32, capacity: usize) -> usize {
    (x.digest() % capacity as u64) as usize
}

/// The first `n` numbers from 0 on that share slot `wanted` of `capacity`.
fn colliding(n: usize, wanted: usize, capacity: usize) -> Vec<i32> {
    let mut found = Vec::new();
    let mut x = 0;
    while found.len() < n {
        if slot(x, capacity) == wanted {
            found.push(x);
        }
        x += 1;
    }
    found
}

#[test]
fn new_table_is_empty_with_sixteen_slots() {
    let set: HashSet<u64> = HashSet::new();
    assert_eq!(set.len(), 0);
    assert!(set.is_empty());
    assert_eq!(set.capacity(), 16);
    assert!(set.iter().next().is_none());
    assert!(!set.contains(&0));
}

#[test]
fn len_counts_distinct_elements() {
    let mut set = HashSet::new();
    for x in [5, 1, 5, 5, 9, 1, 7, 9, 5] {
        set.insert(x);
    }
    assert_eq!(set.len(), 4);
    assert!(!set.is_empty());
}

#[test]
fn insert_reports_whether_the_element_was_new() {
    let mut set = HashSet::new();
    assert!(set.insert(7u8));
    assert_eq!(set.len(), 1);
    assert!(!set.insert(7u8));
    assert_eq!(set.len(), 1);
    assert!(set.insert(8u8));
    assert_eq!(set.len(), 2);
}

#[test]
fn contains_is_false_for_what_was_never_inserted_or_was_removed() {
    let mut set = HashSet::new();
    for x in 0..50i64 {
        set.insert(x * 2);
    }
    for x in 0..50i64 {
        assert!(set.contains(&(x * 2)));
        assert!(!set.contains(&(x * 2 + 1)));
    }
    for x in 0..25i64 {
        assert!(set.remove(&(x * 2)));
    }
    for x in 0..50i64 {
        assert_eq!(set.contains(&(x * 2)), x >= 25);
    }
    assert_eq!(set.len(), 25);
}

#[test]
fn remove_of_an_absent_element_changes_nothing() {
    let mut set = HashSet::new();
    set.insert(1);
    set.insert(2);
    let before: Vec<i32> = set.iter().copied().collect();
    assert!(!set.remove(&3));
    assert_eq!(set.len(), 2);
    assert_eq!(set.capacity(), 16);
    let after: Vec<i32> = set.iter().copied().collect();
    assert_eq!(before, after);
}

#[test]
fn remove_of_a_present_element_takes_one_away() {
    let mut set = HashSet::new();
    set.insert(1);
    set.insert(2);
    set.insert(3);
    assert!(set.remove(&2));
    assert_eq!(set.len(), 2);
    assert!(!set.contains(&2));
    assert!(set.contains(&1));
    assert!(set.contains(&3));
}

#[test]
fn table_doubles_with_the_thirteenth_element() {
    let mut set = HashSet::new();
    for x in 0..12u32 {
        set.insert(x);
        assert_eq!(set.capacity(), 16);
    }
    set.insert(12u32);
    assert_eq!(set.capacity(), 32);
    assert_eq!(set.len(), 13);
    for x in 13..24u32 {
        set.insert(x);
        assert_eq!(set.capacity(), 32);
    }
    set.insert(24u32);
    assert_eq!(set.capacity(), 64);
    assert_eq!(set.len(), 25);
    for x in 0..25u32 {
        assert!(set.contains(&x));
    }
}

#[test]
fn duplicate_at_the_threshold_does_not_grow_the_table() {
    let mut set = HashSet::new();
    for x in 0..12u16 {
        set.insert(x);
    }
    assert!(!set.insert(5u16));
    assert_eq!(set.capacity(), 16);
    assert_eq!(set.len(), 12);
}

#[test]
fn table_never_shrinks() {
    let mut set = HashSet::new();
    for x in 0..100usize {
        set.insert(x);
    }
    let grown = set.capacity();
    assert_eq!(grown, 256);
    for x in 0..100usize {
        set.remove(&x);
        assert_eq!(set.capacity(), grown);
    }
    assert!(set.is_empty());
}

#[test]
fn clear_keeps_the_slots_and_drops_the_elements() {
    let mut set = HashSet::new();
    for x in 0..20i16 {
        set.insert(x);
    }
    assert_eq!(set.capacity(), 32);
    set.clear();
    assert_eq!(set.len(), 0);
    assert!(set.is_empty());
    assert_eq!(set.capacity(), 32);
    assert!(set.iter().next().is_none());
    for x in 0..20i16 {
        assert!(!set.contains(&x));
    }
    assert!(set.insert(3i16));
    assert_eq!(set.len(), 1);
}

#[test]
fn traversal_goes_slot_by_slot() {
    let mut set = HashSet::new();
    for x in [40, 3, 17, 8, 25, 1] {
        set.insert(x);
    }
    let seen: Vec<i32> = set.iter().copied().collect();
    assert_eq!(seen.len(), 6);
    for pair in seen.windows(2) {
        assert!(slot(pair[0], 16) <= slot(pair[1], 16));
    }
}

#[test]
fn elements_of_one_slot_come_in_insertion_order() {
    let same = colliding(4, 5, 16);
    let mut set = HashSet::new();
    for x in [same[2], same[0], same[3], same[1]] {
        assert!(set.insert(x));
    }
    let seen: Vec<i32> = set.iter().copied().collect();
    assert_eq!(seen, vec![same[2], same[0], same[3], same[1]]);
}

#[test]
fn remove_moves_the_later_elements_of_the_slot_up() {
    let same = colliding(4, 9, 16);
    let mut set = HashSet::new();
    for x in same.iter() {
        set.insert(*x);
    }
    assert!(set.remove(&same[1]));
    let seen: Vec<i32> = set.iter().copied().collect();
    assert_eq!(seen, vec![same[0], same[2], same[3]]);
    assert!(set.remove(&same[0]));
    let seen: Vec<i32> = set.iter().copied().collect();
    assert_eq!(seen, vec![same[2], same[3]]);
    assert!(set.insert(same[1]));
    let seen: Vec<i32> = set.iter().copied().collect();
    assert_eq!(seen, vec![same[2], same[3], same[1]]);
}

#[test]
fn growth_deals_the_elements_out_in_traversal_order() {
    let mut set = HashSet::new();
    for x in 0..12 {
        set.insert(x);
    }
    let before: Vec<i32> = set.iter().copied().collect();
    set.insert(12);
    assert_eq!(set.capacity(), 32);
    let after: Vec<i32> = set.iter().copied().collect();
    let mut expected: Vec<i32> = Vec::new();
    for n in 0..32 {
        for x in before.iter() {
            if slot(*x, 32) == n {
                expected.push(*x);
            }
        }
        if slot(12, 32) == n {
            expected.push(12);
        }
    }
    assert_eq!(after, expected);
}

#[test]
fn traversal_yields_every_element_once() {
    let mut set = HashSet::new();
    for x in 0..200u64 {
        set.insert(x % 150);
    }
    for x in 0..50u64 {
        set.remove(&(x * 3));
    }
    let mut seen: Vec<u64> = set.iter().copied().collect();
    assert_eq!(seen.len(), set.len());
    seen.sort();
    let expected: Vec<u64> = (0..150u64).filter(|x| x % 3 != 0).collect();
    assert_eq!(seen, expected);
}

#[test]
fn two_traversals_are_independent() {
    let mut set = HashSet::new();
    set.insert(1);
    set.insert(2);
    let mut first = set.iter();
    let mut second = set.iter();
    let a = first.next();
    let b = second.next();
    assert_eq!(a, b);
    assert!(first.next().is_some());
    assert!(first.next().is_none());
    assert!(first.next().is_none());
    assert!(second.next().is_some());
    assert!(second.next().is_none());
}

#[test]
fn copy_does_not_follow_later_changes() {
    let mut first = HashSet::new();
    for x in 0..30i8 {
        first.insert(x);
    }
    let mut second = first.clone();
    assert_eq!(second.len(), 30);
    assert_eq!(second.capacity(), first.capacity());
    let a: Vec<i8> = first.iter().copied().collect();
    let b: Vec<i8> = second.iter().copied().collect();
    assert_eq!(a, b);
    second.remove(&4);
    first.insert(100);
    assert!(first.contains(&4));
    assert!(!second.contains(&4));
    assert!(first.contains(&100));
    assert!(!second.contains(&100));
}

#[test]
fn from_iter_keeps_one_of_each() {
    let set = HashSet::from_iter(vec![3u8, 3, 3]);
    assert_eq!(set.len(), 1);
    assert!(set.contains(&3));
    let none: HashSet<u8> = HashSet::from_iter(Vec::new());
    assert!(none.is_empty());
    assert_eq!(none.capacity(), 16);
    let many = HashSet::from_iter((0..40isize).collect());
    assert_eq!(many.len(), 40);
    assert_eq!(many.capacity(), 64);
}

#[test]
fn from_iter_is_insertion_one_by_one() {
    let items = vec![9, 4, 9, 27, 4, 1, 33, 65];
    let built = HashSet::from_iter(items.clone());
    let mut by_hand = HashSet::new();
    for x in items {
        by_hand.insert(x);
    }
    let a: Vec<i32> = built.iter().copied().collect();
    let b: Vec<i32> = by_hand.iter().copied().collect();
    assert_eq!(a, b);
}

#[test]
fn default_is_a_new_table() {
    let set: HashSet<String> = Default::default();
    assert_eq!(set.len(), 0);
    assert_eq!(set.capacity(), 16);
}

#[test]
fn owned_texts_are_found_by_borrowed_ones() {
    let mut set = HashSet::new();
    assert!(set.insert(String::from("alpha")));
    assert!(set.insert(String::from("beta")));
    assert!(!set.insert(String::from("alpha")));
    assert!(set.contains("alpha"));
    assert!(set.contains(&String::from("beta")));
    assert!(!set.contains("gamma"));
    assert!(!set.contains(""));
    assert!(set.remove("alpha"));
    assert!(!set.contains("alpha"));
    assert!(!set.remove("alpha"));
    assert_eq!(set.len(), 1);
}

#[test]
fn texts_that_differ_in_one_byte_are_different_elements() {
    let mut set = HashSet::new();
    assert!(set.insert("abc"));
    assert!(set.insert("abd"));
    assert!(set.insert("ab"));
    assert!(set.insert(""));
    assert!(set.insert("ab\u{e9}"));
    assert!(!set.insert("abc"));
    assert_eq!(set.len(), 5);
}

#[test]
fn a_borrowed_text_hashes_as_the_owned_one() {
    let owned = String::from("hello");
    assert_eq!(owned.digest(), "hello".digest());
    assert_eq!(Probe::<String>::probe_digest("hello"), owned.digest());
    assert!(Probe::<String>::matches("hello", &owned));
    assert!(!Probe::<String>::matches("hellp", &owned));
}

#[test]
fn numbers_are_hashed_by_their_bytes() {
    let mut hasher = DefaultHasher::new();
    hasher.write(&42i32.to_le_bytes());
    assert_eq!(42i32.digest(), hasher.finish());
    let mut hasher = DefaultHasher::new();
    hasher.write(&(-7i64).to_le_bytes());
    assert_eq!((-7i64).digest(), hasher.finish());
    let mut hasher = DefaultHasher::new();
    hasher.write(&[200u8]);
    assert_eq!(200u8.digest(), hasher.finish());
    let mut hasher = DefaultHasher::new();
    hasher.write(&(-3i8).to_le_bytes());
    assert_eq!((-3i8).digest(), hasher.finish());
    let mut hasher = DefaultHasher::new();
    hasher.write(&513u16.to_le_bytes());
    assert_eq!(513u16.digest(), hasher.finish());
    let mut hasher = DefaultHasher::new();
    hasher.write(&(usize::MAX as u64).to_le_bytes());
    assert_eq!(usize::MAX.digest(), hasher.finish());
    let mut hasher = DefaultHasher::new();
    hasher.write(&(-1i64).to_le_bytes());
    assert_eq!((-1isize).digest(), hasher.finish());
}

#[test]
fn texts_are_hashed_by_their_bytes_and_an_end_mark() {
    let mut hasher = DefaultHasher::new();
    hasher.write("hello".as_bytes());
    hasher.write(&[255u8]);
    assert_eq!("hello".digest(), hasher.finish());
    assert!("hello".digest() != "hellp".digest());
}

#[test]
fn equals_compares_values() {
    assert!(3u32.equals(&3));
    assert!(!3u32.equals(&4));
    assert!("a".equals(&"a"));
    assert!(!"a".equals(&"b"));
    assert!(!"a".equals(&"ab"));
    assert!(String::from("x").equals(&String::from("x")));
}

#[test]
fn debug_form_is_that_of_a_set() {
    let mut set = HashSet::new();
    assert_eq!(format!("{:?}", set), "{}");
    set.insert(7);
    assert_eq!(format!("{:?}", set), "{7}");
    let same = colliding(2, 0, 16);
    let mut two = HashSet::new();
    two.insert(same[0]);
    two.insert(same[1]);
    assert_eq!(format!("{:?}", two), format!("{{{}, {}}}", same[0], same[1]));
    let mut texts = HashSet::new();
    texts.insert("a");
    assert_eq!(format!("{:?}", texts), "{\"a\"}");
}
