use fcpeg::string_map::{find_string, StringMap};

#[test]
fn a_map_keeps_its_keys_in_the_order_of_their_first_insertion() {
    let mut map: StringMap<String> = StringMap::new();
    assert_eq!(map.len(), 0);
    map.insert("b".to_string(), "1".to_string());
    map.insert("a".to_string(), "2".to_string());
    map.insert("b".to_string(), "3".to_string());
    assert_eq!(map.len(), 2);
    assert_eq!(map.keys, vec!["b".to_string(), "a".to_string()]);
    assert_eq!(map.values, vec!["3".to_string(), "2".to_string()]);
    assert_eq!(map.key_at(1), "a");
    assert_eq!(map.value_at(0), "3");
    assert_eq!(map.get(&"b".to_string()), Some(&"3".to_string()));
    assert_eq!(map.get(&"c".to_string()), None);
    assert!(map.contains_key(&"a".to_string()));
    assert!(!map.contains_key(&"".to_string()));
}

#[test]
fn a_key_that_is_taken_keeps_its_value() {
    let mut map: StringMap<String> = StringMap::new();
    map.insert_new("a".to_string(), "1".to_string());
    map.insert_new("a".to_string(), "2".to_string());
    map.insert_new("".to_string(), "3".to_string());
    assert_eq!(map.keys, vec!["a".to_string(), "".to_string()]);
    assert_eq!(map.values, vec!["1".to_string(), "3".to_string()]);
}

#[test]
fn a_string_is_found_at_its_first_place() {
    let list = vec!["a".to_string(), "b".to_string(), "a".to_string()];
    assert_eq!(find_string(&list, &"a".to_string()), Some(0));
    assert_eq!(find_string(&list, &"b".to_string()), Some(1));
    assert_eq!(find_string(&list, &"c".to_string()), None);
    assert_eq!(find_string(&vec![], &"a".to_string()), None);
}
