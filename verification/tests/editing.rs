use std::collections::BTreeMap;
use steam_optionx::catalog::App;
use steam_optionx::editing::{
    app_url, apply_default_launch_options, clear_launch_options, restore_launch_options,
    shown_launch_options,
};

fn texts(pairs: Vec<(u32, &str)>) -> BTreeMap<u32, String> {
    pairs.into_iter().map(|(id, text)| (id, text.to_string())).collect()
}

fn app(name: &str, launch_options: &str) -> App {
    App { name: name.to_string(), launch_options: launch_options.to_string() }
}

#[test]
fn apply_default_fills_empty_texts_and_those_of_the_old_default() {
    let all = texts(vec![(1, ""), (2, "-old"), (3, "-own"), (4, " ")]);
    let applied = apply_default_launch_options(&all, &"-old".to_string(), &"-new".to_string());
    assert_eq!(applied, texts(vec![(1, "-new"), (2, "-new"), (3, "-own"), (4, " ")]));
}

#[test]
fn apply_default_with_a_blank_default_changes_nothing() {
    let all = texts(vec![(1, ""), (2, "-old"), (3, "-own")]);
    assert_eq!(apply_default_launch_options(&all, &"-old".to_string(), &"".to_string()), all);
    assert_eq!(apply_default_launch_options(&all, &"-old".to_string(), &" \t".to_string()), all);
}

#[test]
fn apply_default_with_an_empty_old_default() {
    let all = texts(vec![(1, ""), (2, "-x")]);
    let applied = apply_default_launch_options(&all, &"".to_string(), &"-d".to_string());
    assert_eq!(applied, texts(vec![(1, "-d"), (2, "-x")]));
}

#[test]
fn clear_empties_every_text() {
    let all = texts(vec![(1, "a"), (2, ""), (3, "c")]);
    assert_eq!(clear_launch_options(&all), texts(vec![(1, ""), (2, ""), (3, "")]));
    assert_eq!(clear_launch_options(&BTreeMap::new()), BTreeMap::new());
}

#[test]
fn restore_puts_the_rows_back() {
    let mut all = texts(vec![(1, "edited"), (2, "kept"), (3, "")]);
    let mut apps = BTreeMap::new();
    apps.insert(1, app("One", "-one"));
    apps.insert(3, app("Three", "-three"));
    apps.insert(4, app("Four", ""));
    restore_launch_options(&mut all, &apps);
    assert_eq!(all, texts(vec![(1, "-one"), (2, "kept"), (3, "-three"), (4, "")]));
}

#[test]
fn shown_launch_options_prefers_the_text_being_edited() {
    let mut all = texts(vec![(1, "edited")]);
    assert_eq!(shown_launch_options(&mut all, 1, &app("One", "-one")), "edited");
    assert_eq!(all, texts(vec![(1, "edited")]));
}

#[test]
fn shown_launch_options_starts_from_the_row() {
    let mut all = texts(vec![(1, "edited")]);
    assert_eq!(shown_launch_options(&mut all, 2, &app("Two", "-two")), "-two");
    assert_eq!(all, texts(vec![(1, "edited"), (2, "-two")]));
}

#[test]
fn app_url_points_at_the_store_or_at_protondb() {
    assert_eq!(app_url(false, 220), "https://store.steampowered.com/app/220");
    assert_eq!(app_url(true, 220), "https://www.protondb.com/app/220");
    assert_eq!(app_url(true, 0), "https://www.protondb.com/app/0");
}
