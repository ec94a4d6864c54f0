use std::collections::BTreeMap;
use steam_optionx::catalog::{
    config_dir, get_installed_apps, is_filtered, sort_apps, update_apps, App, AppSort,
};

fn strings(list: Vec<&str>) -> Vec<String> {
    list.into_iter().map(|text| text.to_string()).collect()
}

fn texts(pairs: Vec<(u32, &str)>) -> BTreeMap<u32, String> {
    pairs.into_iter().map(|(id, text)| (id, text.to_string())).collect()
}

fn app(name: &str, launch_options: &str) -> App {
    App { name: name.to_string(), launch_options: launch_options.to_string() }
}

fn rows(pairs: Vec<(u32, &str)>) -> BTreeMap<u32, App> {
    pairs.into_iter().map(|(id, name)| (id, app(name, ""))).collect()
}

fn ids(sort: AppSort, apps: &BTreeMap<u32, App>) -> Vec<u32> {
    sort_apps(sort, apps).into_iter().map(|row| *row.0).collect()
}

fn localconfig() -> &'static str {
    "\"UserLocalConfigStore\" { \"Software\" { \"Valve\" { \"Steam\" { \"apps\" { \"10\" { \"LaunchOptions\" \"-ten\" } \"20\" { } \"30\" { \"LaunchOptions\" \"-thirty\" } } } } } }"
}

fn libraryfolders() -> &'static str {
    "\"libraryfolders\" { \"0\" { \"path\" \"/a\" \"apps\" { \"10\" \"1\" \"40\" \"1\" } } \"1\" { \"path\" \"/b\" \"apps\" { \"20\" \"1\" \"x\" \"1\" } } }"
}

fn names() -> BTreeMap<u32, String> {
    texts(vec![(10, "Ten"), (20, "Twenty"), (30, "Thirty"), (40, "Forty"), (50, "Fifty")])
}

#[test]
fn get_installed_apps_joins_names_and_options() {
    let apps = get_installed_apps(
        &strings(vec!["10", "20", "60"]),
        &texts(vec![(10, "-ten"), (30, "-thirty")]),
        &names(),
    );
    let mut expected = BTreeMap::new();
    expected.insert(10, app("Ten", "-ten"));
    expected.insert(20, app("Twenty", ""));
    assert_eq!(apps, expected);
}

#[test]
fn get_installed_apps_passes_over_keys_that_spell_no_identifier() {
    let apps = get_installed_apps(&strings(vec!["ten", "", "10", "+20"]), &BTreeMap::new(), &names());
    let mut expected = BTreeMap::new();
    expected.insert(10, app("Ten", ""));
    expected.insert(20, app("Twenty", ""));
    assert_eq!(apps, expected);
}

#[test]
fn get_installed_apps_of_nothing_is_empty() {
    assert_eq!(get_installed_apps(&Vec::new(), &names(), &names()), BTreeMap::new());
    assert_eq!(get_installed_apps(&strings(vec!["10"]), &names(), &BTreeMap::new()), BTreeMap::new());
}

#[test]
fn update_apps_lists_the_installed_applications() {
    let apps = update_apps(Some(localconfig()), Some(libraryfolders()), &names()).unwrap();
    let mut expected = BTreeMap::new();
    expected.insert(10, app("Ten", "-ten"));
    expected.insert(20, app("Twenty", ""));
    expected.insert(40, app("Forty", ""));
    assert_eq!(apps, expected);
}

#[test]
fn update_apps_falls_back_on_the_applications_with_options() {
    let mut expected = BTreeMap::new();
    expected.insert(10, app("Ten", "-ten"));
    expected.insert(20, app("Twenty", ""));
    expected.insert(30, app("Thirty", "-thirty"));
    assert_eq!(update_apps(Some(localconfig()), None, &names()), Some(expected));
    let mut expected = BTreeMap::new();
    expected.insert(10, app("Ten", "-ten"));
    expected.insert(20, app("Twenty", ""));
    expected.insert(30, app("Thirty", "-thirty"));
    assert_eq!(update_apps(Some(localconfig()), Some("broken {"), &names()), Some(expected));
}

#[test]
fn update_apps_takes_unusable_options_as_none() {
    let mut expected = BTreeMap::new();
    expected.insert(10, app("Ten", ""));
    expected.insert(20, app("Twenty", ""));
    expected.insert(40, app("Forty", ""));
    assert_eq!(update_apps(None, Some(libraryfolders()), &names()), Some(expected));
    let mut expected = BTreeMap::new();
    expected.insert(10, app("Ten", ""));
    expected.insert(20, app("Twenty", ""));
    expected.insert(40, app("Forty", ""));
    assert_eq!(
        update_apps(Some("\"UserLocalConfigStore\" { }"), Some(libraryfolders()), &names()),
        Some(expected)
    );
}

#[test]
fn update_apps_with_nothing_read_is_empty() {
    assert_eq!(update_apps(None, None, &names()), Some(BTreeMap::new()));
}

#[test]
fn is_filtered_lets_everything_pass_an_empty_filter() {
    assert!(is_filtered(&"".to_string(), &"Half-Life".to_string()));
    assert!(is_filtered(&"".to_string(), &"".to_string()));
}

#[test]
fn is_filtered_looks_for_the_filter_in_the_name() {
    assert!(is_filtered(&"life".to_string(), &"Half-Life".to_string()));
    assert!(is_filtered(&"half-life".to_string(), &"Half-Life".to_string()));
    assert!(!is_filtered(&"portal".to_string(), &"Half-Life".to_string()));
    assert!(!is_filtered(&"half life".to_string(), &"Half-Life".to_string()));
}

#[test]
fn is_filtered_takes_no_notice_of_case() {
    assert!(is_filtered(&"HALF".to_string(), &"half-life".to_string()));
    assert!(is_filtered(&"half".to_string(), &"HALF-LIFE".to_string()));
    assert!(is_filtered(&"ÉCOLE".to_string(), &"L'école".to_string()));
}

#[test]
fn is_filtered_cuts_the_white_space_off_the_filter() {
    assert!(is_filtered(&"  life \t".to_string(), &"Half-Life".to_string()));
    assert!(is_filtered(&"   ".to_string(), &"Half-Life".to_string()));
    assert!(!is_filtered(&" f l ".to_string(), &"Half-Life".to_string()));
}

#[test]
fn sort_apps_by_identifier() {
    let apps = rows(vec![(30, "a"), (10, "c"), (20, "b")]);
    assert_eq!(ids(AppSort::IdAscending, &apps), vec![10, 20, 30]);
    assert_eq!(ids(AppSort::IdDescending, &apps), vec![30, 20, 10]);
}

#[test]
fn sort_apps_by_name_takes_no_notice_of_case() {
    let apps = rows(vec![(1, "banana"), (2, "Apple"), (3, "cherry"), (4, "apricot")]);
    assert_eq!(ids(AppSort::NameAscending, &apps), vec![2, 4, 1, 3]);
    assert_eq!(ids(AppSort::NameDescending, &apps), vec![3, 1, 4, 2]);
}

#[test]
fn sort_apps_by_name_keeps_rows_of_one_name_by_rising_identifier() {
    let apps = rows(vec![(5, "same"), (3, "Same"), (9, "SAME"), (1, "zeta"), (7, "alpha")]);
    assert_eq!(ids(AppSort::NameAscending, &apps), vec![7, 3, 5, 9, 1]);
    assert_eq!(ids(AppSort::NameDescending, &apps), vec![1, 3, 5, 9, 7]);
}

#[test]
fn sort_apps_agrees_with_the_standard_sort() {
    let names = vec![
        "Portal 2", "portal", "Half-Life", "half-life 2", "ÉTÉ", "été", "Zeta", "", "10", "9", "a b",
        "A-b", "portal", "Äpfel",
    ];
    let apps: BTreeMap<u32, App> =
        names.iter().enumerate().map(|(i, name)| (100 - i as u32, app(name, ""))).collect();
    let mut rising: Vec<(&u32, &App)> = apps.iter().collect();
    rising.sort_by(|a, b| a.1.name.to_lowercase().cmp(&b.1.name.to_lowercase()));
    assert_eq!(sort_apps(AppSort::NameAscending, &apps), rising);
    let mut falling: Vec<(&u32, &App)> = apps.iter().collect();
    falling.sort_by(|a, b| b.1.name.to_lowercase().cmp(&a.1.name.to_lowercase()));
    assert_eq!(sort_apps(AppSort::NameDescending, &apps), falling);
    let by_id: Vec<(&u32, &App)> = apps.iter().collect();
    assert_eq!(sort_apps(AppSort::IdAscending, &apps), by_id);
    let by_id_back: Vec<(&u32, &App)> = apps.iter().rev().collect();
    assert_eq!(sort_apps(AppSort::IdDescending, &apps), by_id_back);
}

#[test]
fn sort_apps_of_an_empty_table_is_empty() {
    assert!(sort_apps(AppSort::NameAscending, &BTreeMap::new()).is_empty());
}

#[test]
fn sort_apps_lists_the_rows_with_their_values() {
    let mut apps = BTreeMap::new();
    apps.insert(2, app("b", "-two"));
    apps.insert(1, app("a", "-one"));
    let listed = sort_apps(AppSort::NameDescending, &apps);
    assert_eq!(listed, vec![(&2, &app("b", "-two")), (&1, &app("a", "-one"))]);
}

#[test]
fn app_sort_starts_by_rising_identifier() {
    assert_eq!(AppSort::default(), AppSort::IdAscending);
}

#[test]
fn config_dir_goes_four_up_and_into_config() {
    let path = "/home/user/.local/share/Steam/userdata/12345678/config/localconfig.vdf".to_string();
    let mut expected = std::path::PathBuf::from("/home/user/.local/share/Steam");
    expected.push("config");
    expected.push("libraryfolders.vdf");
    assert_eq!(std::path::PathBuf::from(config_dir(&path)), expected);
}

#[test]
fn config_dir_of_a_short_path_stops_at_the_top() {
    let mut expected = std::path::PathBuf::from("a/b");
    expected.pop();
    expected.pop();
    expected.pop();
    expected.pop();
    expected.push("config");
    expected.push("libraryfolders.vdf");
    assert_eq!(std::path::PathBuf::from(config_dir(&"a/b".to_string())), expected);
    assert_eq!(
        std::path::PathBuf::from(config_dir(&"".to_string())),
        std::path::PathBuf::from("config").join("libraryfolders.vdf")
    );
}
