use uzi_pool::table::Table;

#[test]
fn later_value_replaces_earlier() {
    let mut t: Table<String, u64> = Table::new();
    t.insert("a".to_string(), 1);
    t.insert("b".to_string(), 2);
    t.insert("a".to_string(), 3);
    assert_eq!(t.rows().len(), 2);
    assert_eq!(t.get(&"a".to_string()), Some(&3));
    assert_eq!(t.get(&"b".to_string()), Some(&2));
}

#[test]
fn removed_key_is_gone() {
    let mut t: Table<String, u64> = Table::new();
    t.insert("a".to_string(), 1);
    t.insert("b".to_string(), 2);
    assert_eq!(t.remove(&"a".to_string()), Some(1));
    assert_eq!(t.remove(&"a".to_string()), None);
    assert!(!t.contains(&"a".to_string()));
    assert!(t.contains(&"b".to_string()));
    assert_eq!(t.rows().len(), 1);
}
