use dungeonrs::keyed::KeyedList;

#[test]
fn insert_then_get_returns_value() {
    let mut list: KeyedList<u32> = KeyedList::new();
    list.insert("a".to_string(), 1);
    list.insert("b".to_string(), 2);
    assert_eq!(list.get(&"a".to_string()), Some(&1));
    assert_eq!(list.get(&"b".to_string()), Some(&2));
    assert_eq!(list.get(&"c".to_string()), None);
    assert_eq!(list.len(), 2);
}

#[test]
fn insert_replaces_in_place() {
    let mut list: KeyedList<u32> = KeyedList::new();
    list.insert("a".to_string(), 1);
    list.insert("b".to_string(), 2);
    list.insert("a".to_string(), 3);
    assert_eq!(list.len(), 2);
    assert_eq!(list.key_at(0), "a");
    assert_eq!(*list.value_at(0), 3);
    assert_eq!(list.key_at(1), "b");
}

#[test]
fn get_mut_changes_value_and_clear_empties() {
    let mut list: KeyedList<u32> = KeyedList::new();
    list.insert("a".to_string(), 1);
    *list.get_mut(&"a".to_string()).unwrap() = 5;
    assert_eq!(list.get(&"a".to_string()), Some(&5));
    assert!(list.get_mut(&"z".to_string()).is_none());
    assert!(list.contains_key(&"a".to_string()));
    list.clear();
    assert_eq!(list.len(), 0);
    assert!(!list.contains_key(&"a".to_string()));
}
