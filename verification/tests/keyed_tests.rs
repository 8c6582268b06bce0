use clippy_core::keyed::KeyedList;

#[test]
fn table_binds_and_finds() {
    let mut t: KeyedList<u64> = KeyedList::new();
    assert_eq!(t.len(), 0);
    assert!(!t.contains_key("a"));
    t.insert("a".to_string(), 1);
    t.insert("b".to_string(), 2);
    assert_eq!(t.len(), 2);
    assert_eq!(t.get("a"), Some(&1));
    assert_eq!(t.get("b"), Some(&2));
    assert_eq!(t.get("c"), None);
    assert_eq!(t.position("b"), Some(1));
    assert_eq!(t.position("c"), None);
    assert!(t.contains_key("a"));
}

#[test]
fn binding_a_bound_key_keeps_its_place() {
    let mut t: KeyedList<u64> = KeyedList::new();
    t.insert("a".to_string(), 1);
    t.insert("b".to_string(), 2);
    t.insert("a".to_string(), 3);
    assert_eq!(t.len(), 2);
    assert_eq!(t.key_at(0), "a");
    assert_eq!(*t.value_at(0), 3);
    assert_eq!(t.key_at(1), "b");
    assert_eq!(*t.value_at(1), 2);
}

#[test]
fn removing_keeps_the_order_of_the_rest() {
    let mut t: KeyedList<u64> = KeyedList::new();
    t.insert("a".to_string(), 1);
    t.insert("b".to_string(), 2);
    t.insert("c".to_string(), 3);
    assert_eq!(t.remove("b"), Some(2));
    assert_eq!(t.remove("b"), None);
    assert_eq!(t.len(), 2);
    assert_eq!(t.key_at(0), "a");
    assert_eq!(t.key_at(1), "c");
    t.insert("b".to_string(), 4);
    assert_eq!(t.key_at(2), "b");
    t.clear();
    assert_eq!(t.len(), 0);
    assert_eq!(t.get("a"), None);
}

#[test]
fn keys_are_told_apart_by_every_byte() {
    let mut t: KeyedList<u64> = KeyedList::new();
    t.insert("".to_string(), 0);
    t.insert("a".to_string(), 1);
    t.insert("A".to_string(), 2);
    t.insert("a ".to_string(), 3);
    t.insert("é".to_string(), 4);
    t.insert("e\u{301}".to_string(), 5);
    assert_eq!(t.len(), 6);
    assert_eq!(t.get(""), Some(&0));
    assert_eq!(t.get("A"), Some(&2));
    assert_eq!(t.get("a "), Some(&3));
    assert_eq!(t.get("é"), Some(&4));
    assert_eq!(t.get("e\u{301}"), Some(&5));
}
