use paystream::KeyedMap;

#[test]
fn map_stores_and_replaces() {
    let mut map: KeyedMap<String, u128> = KeyedMap::new();
    assert_eq!(map.get(&"a".to_string()), None);
    assert!(!map.contains_key(&"a".to_string()));
    map.insert("a".to_string(), 1);
    map.insert("b".to_string(), 2);
    map.insert("a".to_string(), 3);
    assert_eq!(map.get(&"a".to_string()), Some(&3));
    assert_eq!(map.get(&"b".to_string()), Some(&2));
    assert!(map.contains_key(&"b".to_string()));
    assert_eq!(map.entries(), &vec![("a".to_string(), 3), ("b".to_string(), 2)]);
}

#[test]
fn map_removes_one_key_and_keeps_the_order_of_the_rest() {
    let mut map: KeyedMap<u64, u8> = KeyedMap::new();
    map.insert(5, 50);
    map.insert(3, 30);
    map.insert(9, 90);
    assert_eq!(map.remove(&3), Some(30));
    assert_eq!(map.remove(&3), None);
    assert_eq!(map.get(&3), None);
    assert_eq!(map.entries(), &vec![(5, 50), (9, 90)]);
    map.insert(3, 31);
    assert_eq!(map.entries(), &vec![(5, 50), (9, 90), (3, 31)]);
}
