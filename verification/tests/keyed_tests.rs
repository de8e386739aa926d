use cubert::keyed::KeyedMap;

#[test]
fn keyed_map_insert_get_replace_remove() {
    let mut m: KeyedMap<u32> = KeyedMap::new();
    assert_eq!(m.len(), 0);
    assert_eq!(m.insert("AAPL".to_string(), 1), None);
    assert_eq!(m.insert("MSFT".to_string(), 2), None);
    assert_eq!(m.insert("AAPL".to_string(), 3), Some(1));
    assert_eq!(m.len(), 2);
    assert_eq!(m.get("AAPL"), Some(&3));
    assert_eq!(m.get("TSLA"), None);
    assert!(m.contains_key("MSFT"));
    assert_eq!(m.key_at(0), "AAPL");
    assert_eq!(m.key_at(1), "MSFT");
    assert_eq!(m.find("MSFT"), Some(1));
    *m.value_at_mut(1) += 10;
    assert_eq!(m.get("MSFT"), Some(&12));
    assert_eq!(m.remove("AAPL"), Some(3));
    assert_eq!(m.remove("AAPL"), None);
    assert_eq!(m.len(), 1);
    assert_eq!(m.key_at(0), "MSFT");
    m.clear();
    assert_eq!(m.len(), 0);
}
