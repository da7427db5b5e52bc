use grahamcraft::keyed_list::KeyedList;

#[test]
fn last_insert_per_key_wins() {
    let mut list: KeyedList<u32> = KeyedList::new();
    list.insert("a".to_string(), 1);
    list.insert("b".to_string(), 2);
    list.insert("a".to_string(), 3);
    assert_eq!(list.get("a"), Some(3));
    assert_eq!(list.get("b"), Some(2));
    assert_eq!(list.get("c"), None);
    let mut entries = list.entries().clone();
    entries.sort();
    assert_eq!(entries, vec![("a".to_string(), 3), ("b".to_string(), 2)]);
}

#[test]
fn remove_returns_value_once() {
    let mut list: KeyedList<u32> = KeyedList::new();
    list.insert("x".to_string(), 9);
    assert_eq!(list.remove("x"), Some(9));
    assert_eq!(list.remove("x"), None);
    assert!(list.entries().is_empty());
}
