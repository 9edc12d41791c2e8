use system_monitor_web::label_map::LabelMap;

#[test]
fn insert_then_get_and_overwrite_keeps_place() {
    let mut m: LabelMap<u32> = LabelMap::new();
    assert!(m.is_empty());
    m.insert("b".to_string(), 1);
    m.insert("a".to_string(), 2);
    m.insert("b".to_string(), 3);
    assert_eq!(m.len(), 2);
    assert_eq!(m.get("b"), Some(&3));
    assert_eq!(m.get("a"), Some(&2));
    assert_eq!(m.get("c"), None);
    let (k, v) = m.entry(0);
    assert_eq!((k.as_str(), *v), ("b", 3));
}

#[test]
fn write_keeps_place_of_existing_label_and_puts_new_last() {
    let mut m: LabelMap<u32> = LabelMap::new();
    m.insert("x".to_string(), 1);
    m.insert("y".to_string(), 2);
    m.insert("x".to_string(), 3);
    m.insert("z".to_string(), 4);
    let order: Vec<(String, u32)> = (0..m.len()).map(|i| { let (k, v) = m.entry(i); (k.clone(), *v) }).collect();
    assert_eq!(order, vec![("x".to_string(), 3), ("y".to_string(), 2), ("z".to_string(), 4)]);
}
