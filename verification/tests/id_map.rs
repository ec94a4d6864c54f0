use std::collections::BTreeMap;
use steam_optionx::id_map::{
    ascending, ascending_wide, contains_id, contains_wide_id, look_up, put, put_wide,
};

#[test]
fn put_and_look_up() {
    let mut map: BTreeMap<u32, String> = BTreeMap::new();
    assert!(!contains_id(&map, 3));
    assert_eq!(look_up(&map, 3), None);
    put(&mut map, 3, "three".to_string());
    put(&mut map, 1, "one".to_string());
    put(&mut map, 3, "drei".to_string());
    assert!(contains_id(&map, 3));
    assert!(!contains_id(&map, 2));
    assert_eq!(look_up(&map, 3), Some(&"drei".to_string()));
    assert_eq!(look_up(&map, 1), Some(&"one".to_string()));
    assert_eq!(map.len(), 2);
}

#[test]
fn ascending_lists_by_rising_identifier() {
    let mut map: BTreeMap<u32, &str> = BTreeMap::new();
    map.insert(4294967295, "max");
    map.insert(0, "zero");
    map.insert(17, "seventeen");
    assert_eq!(ascending(&map), vec![(&0, &"zero"), (&17, &"seventeen"), (&4294967295, &"max")]);
    assert!(ascending(&BTreeMap::<u32, String>::new()).is_empty());
}

#[test]
fn wide_identifiers_are_put_found_and_listed() {
    let mut map: BTreeMap<u64, String> = BTreeMap::new();
    put_wide(&mut map, 18446744073709551615, "max".to_string());
    put_wide(&mut map, 4294967296, "wide".to_string());
    put_wide(&mut map, 1, "one".to_string());
    assert!(contains_wide_id(&map, 4294967296));
    assert!(!contains_wide_id(&map, 0));
    assert_eq!(
        ascending_wide(&map),
        vec![
            (&1, &"one".to_string()),
            (&4294967296, &"wide".to_string()),
            (&18446744073709551615, &"max".to_string()),
        ]
    );
}
