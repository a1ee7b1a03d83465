use task_bot::maps::{IdMap, NameMap};

#[test]
fn key_map_insert_get_remove() {
    let mut m: IdMap<String> = IdMap::new();
    assert_eq!(m.len(), 0);
    m.insert(5, "five".to_string());
    m.insert(3, "three".to_string());
    m.insert(5, "FIVE".to_string());
    assert_eq!(m.len(), 2);
    assert_eq!(m.get(&5), Some(&"FIVE".to_string()));
    assert!(m.contains_key(&3));
    assert_eq!(m.keys(), vec![5, 3]);
    assert_eq!(m.remove(&5), Some("FIVE".to_string()));
    assert_eq!(m.remove(&5), None);
    assert_eq!(m.get(&5), None);
    assert_eq!(m.len(), 1);
}

#[test]
fn name_map_keeps_insertion_order() {
    let mut m: NameMap<i64> = NameMap::new();
    m.insert("b".to_string(), 1);
    m.insert("a".to_string(), 2);
    m.insert("b".to_string(), 3);
    assert_eq!(m.keys(), vec!["b".to_string(), "a".to_string()]);
    let (k, v) = m.entry_at(1);
    assert_eq!((k.as_str(), *v), ("a", 2));
}
