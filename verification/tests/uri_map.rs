use phpmd_lsp::uri_map::UriMap;

#[test]
fn a_key_has_one_value() {
    let mut map: UriMap<u32> = UriMap::new();
    assert_eq!(map.len(), 0);
    assert_eq!(map.get("a"), None);
    map.insert("a".to_string(), 1);
    map.insert("b".to_string(), 2);
    map.insert("a".to_string(), 3);
    assert_eq!(map.len(), 2);
    assert_eq!(map.get("a"), Some(&3));
    assert_eq!(map.get("b"), Some(&2));
    assert_eq!(*map.value_at(0), 3);
    assert_eq!(map.remove("a"), Some(3));
    assert_eq!(map.remove("a"), None);
    assert_eq!(map.get("a"), None);
    assert_eq!(map.get("b"), Some(&2));
    assert_eq!(map.len(), 1);
}
