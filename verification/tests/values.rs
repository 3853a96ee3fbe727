use markdown_boxes::values::Values;

#[test]
fn later_insert_replaces_value() {
    let mut values = Values::new();
    values.insert("a".to_string(), "1".to_string());
    values.insert("b".to_string(), "2".to_string());
    values.insert("a".to_string(), "3".to_string());
    assert_eq!(values.get("a"), Some("3".to_string()));
    assert_eq!(values.get("b"), Some("2".to_string()));
    assert_eq!(values.get("c"), None);
}

#[test]
fn pairs_rebuild_the_same_values() {
    let mut values = Values::new();
    values.insert("a".to_string(), "1".to_string());
    values.insert("a".to_string(), "2".to_string());
    let mut rebuilt = Values::new();
    for (k, v) in values.pairs() {
        rebuilt.insert(k, v);
    }
    assert_eq!(rebuilt.get("a"), Some("2".to_string()));
    let copy = values.clone();
    assert_eq!(copy.get("a"), Some("2".to_string()));
}
