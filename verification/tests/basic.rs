use hashset::HashSet;

#[test]
fn test_insert_and_contains() {
    let mut set = HashSet::new();
    assert!(set.insert(42));
    assert!(!set.insert(42)); // Duplicate
    assert!(set.contains(&42));
    assert!(!set.contains(&99));
}

#[test]
fn test_remove() {
    let mut set = HashSet::new();
    set.insert(42);
    assert!(set.remove(&42));
    assert!(!set.remove(&42)); // Already removed
    assert!(!set.contains(&42));
}

#[test]
fn test_size_tracking() {
    let mut set = HashSet::new();
    assert_eq!(set.len(), 0);
    assert!(set.is_empty());
    set.insert(1);
    set.insert(2);
    assert_eq!(set.len(), 2);
    set.remove(&1);
    assert_eq!(set.len(), 1);
    set.clear();
    assert_eq!(set.len(), 0);
    assert_eq!(set.capacity(), 16); // Capacity unchanged
}

#[test]
fn test_resize() {
    let mut set = HashSet::new();
    let initial_capacity = set.capacity();
    // Insert enough to trigger resize (> 0.75 * 16 = 12)
    for i in 0..20 {
        set.insert(i);
    }
    assert!(set.capacity() > initial_capacity);
    assert_eq!(set.len(), 20);
    // Verify all elements still present
    for i in 0..20 {
        assert!(set.contains(&i));
    }
}

#[test]
fn test_iterator() {
    let mut set = HashSet::new();
    set.insert(1);
    set.insert(2);
    set.insert(3);
    let mut collected: Vec<_> = set.iter().copied().collect();
    collected.sort();
    assert_eq!(collected, vec![1, 2, 3]);
}

#[test]
fn test_for_loop() {
    let mut set = HashSet::new();
    set.insert("hello");
    set.insert("world");
    let mut count = 0;
    for item in set.iter() {
        count += 1;
        assert!(item == &"hello" || item == &"world");
    }
    assert_eq!(count, 2);
}

#[test]
fn test_debug() {
    let mut set = HashSet::new();
    set.insert(1);
    set.insert(2);
    let debug_str = format!("{:?}", set);
    assert!(debug_str.contains("1"));
    assert!(debug_str.contains("2"));
}

#[test]
fn test_clone() {
    let mut set1 = HashSet::new();
    set1.insert(42);
    let mut set2 = set1.clone();
    set2.insert(99);
    assert!(set1.contains(&42));
    assert!(!set1.contains(&99)); // Independent copy
    assert!(set2.contains(&42));
    assert!(set2.contains(&99));
}

#[test]
fn test_from_iterator() {
    let set: HashSet<_> = HashSet::from_iter(vec![1, 2, 2, 3]);
    assert_eq!(set.len(), 3); // Duplicates removed
    assert!(set.contains(&1));
    assert!(set.contains(&2));
    assert!(set.contains(&3));
}

#[test]
fn test_default() {
    let set: HashSet<i32> = Default::default();
    assert!(set.is_empty());
}
