use std::collections::BTreeMap;
use steam_optionx::api::app_names;

#[test]
fn app_names_maps_identifiers_to_names() {
    let apps = vec![(220, "Half-Life 2".to_string()), (70, "Half-Life".to_string())];
    let mut expected = BTreeMap::new();
    expected.insert(70, "Half-Life".to_string());
    expected.insert(220, "Half-Life 2".to_string());
    assert_eq!(app_names(apps), expected);
}

#[test]
fn app_names_takes_the_last_name_of_an_identifier() {
    let apps = vec![(5, "old".to_string()), (6, "six".to_string()), (5, "new".to_string())];
    let names = app_names(apps);
    assert_eq!(names.len(), 2);
    assert_eq!(names[&5], "new");
    assert_eq!(names[&6], "six");
}

#[test]
fn app_names_of_an_empty_list_is_empty() {
    assert_eq!(app_names(Vec::new()), BTreeMap::new());
}
