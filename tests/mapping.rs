use raw_http::Mapping;

#[test]
fn new_mapping_is_empty() {
    let m = Mapping::new();
    assert!(m.is_empty());
    assert_eq!(m.len(), 0);
    assert_eq!(m.get("a"), None);
}

#[test]
fn insert_replaces_value_of_existing_key() {
    let mut m = Mapping::new();
    m.insert("a".to_string(), "1".to_string());
    m.insert("b".to_string(), "2".to_string());
    m.insert("a".to_string(), "3".to_string());
    assert_eq!(m.len(), 2);
    assert!(!m.is_empty());
    assert_eq!(m.get("a"), Some(&"3".to_string()));
    assert_eq!(m.get("b"), Some(&"2".to_string()));
    assert_eq!(m.entries().len(), 2);
}
