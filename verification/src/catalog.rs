//! The table of applications that is shown for editing: which applications
//! it holds, how it is filtered and in which order it is listed.

use crate::app_id::{app_id_of, decimal, decimal_text, lemma_parse_decimal, parse_app_id};
use crate::codec::decoded;
use crate::id_map::{ascending, lists, look_up, put, texts};
use crate::launch_options::extracted;
use crate::libraryfolders_vdf::{installed_apps_of, library_folders_of, read_installed_apps};
use crate::localconfig_vdf::{apps_of, narrowed, read_launch_options};
use crate::text::{
    chars_before, chars_of, contains_chars, holds_text, lemma_text_order_total,
    lemma_text_order_transitive, lowercase, lowercased, same_chars, strings_view, text_before,
    trim, trimmed,
};
use std::collections::BTreeMap;
use vstd::prelude::*;

verus! {

/// One row of the table: an application's name and its launch options.
#[derive(Debug, PartialEq, Eq)]
pub struct App {
    pub name: String,
    pub launch_options: String,
}

/// The value of an [`App`].
pub struct AppView {
    pub name: Seq<char>,
    pub launch_options: Seq<char>,
}

impl View for App {
    type V = AppView;

    open spec fn view(&self) -> AppView {
        AppView { name: self.name@, launch_options: self.launch_options@ }
    }
}

impl Clone for App {
    fn clone(&self) -> (copy: Self)
        ensures
            copy@ == self@,
    {
        App { name: self.name.clone(), launch_options: self.launch_options.clone() }
    }
}

/// The order in which the table is listed.
#[derive(Debug, Clone, Copy, PartialEq, Eq, Default)]
pub enum AppSort {
    #[default]
    IdAscending,
    IdDescending,
    NameAscending,
    NameDescending,
}

/// A map of rows, each taken as its value.
pub open spec fn apps_view(apps: Map<u32, App>) -> Map<u32, AppView> {
    Map::new(|id: u32| apps.contains_key(id), |id: u32| apps[id]@)
}

/// The identifiers that the keys in `appids` spell.
pub open spec fn ids_named(appids: Seq<Seq<char>>) -> Set<u32> {
    Set::new(
        |id: u32| exists|i: int| 0 <= i < appids.len() && parse_app_id(#[trigger] appids[i]) == Some(id),
    )
}

/// The table for the applications in `wanted`: a row for each of them that
/// has a name, with that name and with its launch options, which are empty
/// where `properties` holds none for it.
pub open spec fn table(
    wanted: Set<u32>,
    properties: Map<u32, Seq<char>>,
    app_names: Map<u32, Seq<char>>,
) -> Map<u32, AppView> {
    Map::new(
        |id: u32| wanted.contains(id) && app_names.contains_key(id),
        |id: u32|
            AppView {
                name: app_names[id],
                launch_options: if properties.contains_key(id) {
                    properties[id]
                } else {
                    Seq::empty()
                },
            },
    )
}

/// Builds the table for the applications whose keys are in `appids`. A key
/// that spells no identifier is passed over, and so is an application
/// without a name.
pub fn get_installed_apps(
    appids: &Vec<String>,
    properties: &BTreeMap<u32, String>,
    app_names: &BTreeMap<u32, String>,
) -> (apps: BTreeMap<u32, App>)
    ensures
        apps_view(apps@) == table(
            ids_named(strings_view(appids@)),
            texts(properties@),
            texts(app_names@),
        ),
{
    let ghost keys = strings_view(appids@);
    let mut apps: BTreeMap<u32, App> = BTreeMap::new();
    let mut i: usize = 0;
    assert(apps_view(apps@) =~= table(
        ids_named(keys.take(0)),
        texts(properties@),
        texts(app_names@),
    ));
    while i < appids.len()
        invariant
            i <= appids.len(),
            keys == strings_view(appids@),
            apps_view(apps@) == table(
                ids_named(keys.take(i as int)),
                texts(properties@),
                texts(app_names@),
            ),
        decreases appids.len() - i,
    {
        let ghost before = apps@;
        let ghost seen = ids_named(keys.take(i as int));
        let found = app_id_of(appids[i].as_str());
        if let Some(id) = found {
            if let Some(name) = look_up(app_names, id) {
                let launch_options = match look_up(properties, id) {
                    Some(text) => text.clone(),
                    None => String::new(),
                };
                put(&mut apps, id, App { name: name.clone(), launch_options });
            }
        }
        proof {
            let now = ids_named(keys.take(i + 1));
            assert(keys.take(i + 1)[i as int] == keys[i as int]);
            assert forall|id: u32| now.contains(id) == (seen.contains(id) || found == Some(id)) by {
                if seen.contains(id) {
                    let j = choose|j: int|
                        0 <= j < keys.take(i as int).len() && parse_app_id(
                            #[trigger] keys.take(i as int)[j],
                        ) == Some(id);
                    assert(keys.take(i + 1)[j] == keys.take(i as int)[j]);
                }
                if now.contains(id) {
                    let j = choose|j: int|
                        0 <= j < keys.take(i + 1).len() && parse_app_id(
                            #[trigger] keys.take(i + 1)[j],
                        ) == Some(id);
                    if j < i {
                        assert(keys.take(i as int)[j] == keys.take(i + 1)[j]);
                    }
                }
            }
            let wanted = table(now, texts(properties@), texts(app_names@));
            assert forall|id: u32|
                #![trigger wanted.dom().contains(id)]
                #![trigger apps_view(apps@).dom().contains(id)]
                apps_view(apps@).dom().contains(id) == wanted.dom().contains(id) && (
                wanted.dom().contains(id) ==> apps_view(apps@)[id] == wanted[id]) by {
                assert(apps_view(before).dom().contains(id) == table(
                    seen,
                    texts(properties@),
                    texts(app_names@),
                ).dom().contains(id));
                if apps_view(before).dom().contains(id) {
                    assert(apps_view(before)[id] == table(
                        seen,
                        texts(properties@),
                        texts(app_names@),
                    )[id]);
                }
            }
            assert(apps_view(apps@) =~= wanted);
        }
        i += 1;
    }
    assert(keys.take(i as int) =~= keys);
    apps
}

/// The launch options that the text of a local configuration document
/// holds; none where there is no text or where it cannot be used.
pub open spec fn launch_options_in(contents: Option<Seq<char>>) -> Map<u32, Seq<char>> {
    match contents {
        Some(text) => match decoded(text) {
            Some(document) => match apps_of(document) {
                Some(apps) => narrowed(extracted(apps)),
                None => Map::empty(),
            },
            None => Map::empty(),
        },
        None => Map::empty(),
    }
}

/// The applications that the text of a library-folders document lists as
/// installed; `None` where there is no text or where it cannot be used.
pub open spec fn installed_in(contents: Option<Seq<char>>) -> Option<Seq<Seq<char>>> {
    match contents {
        Some(text) => match decoded(text) {
            Some(document) => match library_folders_of(document) {
                Some(folders) => Some(installed_apps_of(folders)),
                None => None,
            },
            None => None,
        },
        None => None,
    }
}

/// The table that the two documents give: rows for the applications that
/// are installed, or, where the library folders cannot tell, for those that
/// have launch options.
pub open spec fn updated_table(
    localconfig: Option<Seq<char>>,
    libraryfolders: Option<Seq<char>>,
    app_names: Map<u32, Seq<char>>,
) -> Map<u32, AppView> {
    let properties = launch_options_in(localconfig);
    match installed_in(libraryfolders) {
        Some(appids) => table(ids_named(appids), properties, app_names),
        None => table(properties.dom(), properties, app_names),
    }
}

/// The view of an optional text.
pub open spec fn text_view(contents: Option<&str>) -> Option<Seq<char>> {
    match contents {
        Some(text) => Some(text@),
        None => None,
    }
}

/// The decimal keys of the applications in `properties`.
fn decimal_keys(properties: &BTreeMap<u32, String>) -> (keys: Vec<String>)
    ensures
        ids_named(strings_view(keys@)) == properties@.dom(),
{
    let pairs = ascending(properties);
    let mut keys: Vec<String> = Vec::new();
    let mut k: usize = 0;
    while k < pairs.len()
        invariant
            k <= pairs.len(),
            keys@.len() == k,
            forall|j: int| 0 <= j < k ==> (#[trigger] keys@[j])@ == decimal(*pairs@[j].0 as nat),
        decreases pairs.len() - k,
    {
        keys.push(decimal_text(*pairs[k].0));
        k += 1;
    }
    proof {
        let named = ids_named(strings_view(keys@));
        assert forall|id: u32| named.contains(id) == properties@.dom().contains(id) by {
            if named.contains(id) {
                let j = choose|j: int|
                    0 <= j < strings_view(keys@).len() && parse_app_id(
                        #[trigger] strings_view(keys@)[j],
                    ) == Some(id);
                assert(strings_view(keys@)[j] == keys@[j]@);
                lemma_parse_decimal(*pairs@[j].0 as u64);
                assert(properties@.contains_key(*pairs@[j].0));
            }
            if properties@.contains_key(id) {
                let j = choose|j: int| 0 <= j < pairs@.len() && *(#[trigger] pairs@[j]).0 == id;
                lemma_parse_decimal(id as u64);
                assert(strings_view(keys@)[j] == keys@[j]@);
            }
        }
        assert(named =~= properties@.dom());
    }
    keys
}

/// Builds the table from what was read of the two documents: the text of
/// the local configuration and the text of the library folders, each `None`
/// where it could not be read. Launch options that cannot be had count as
/// none; where the installed applications cannot be had, those with launch
/// options take their place.
pub fn update_apps(
    localconfig_vdf: Option<&str>,
    libraryfolders_vdf: Option<&str>,
    app_names: &BTreeMap<u32, String>,
) -> (apps: Option<BTreeMap<u32, App>>)
    ensures
        apps matches Some(rows) && apps_view(rows@) == updated_table(
            text_view(localconfig_vdf),
            text_view(libraryfolders_vdf),
            texts(app_names@),
        ),
{
    let properties = match localconfig_vdf {
        Some(contents) => match read_launch_options(contents) {
            Ok(options) => options,
            Err(_) => BTreeMap::new(),
        },
        None => BTreeMap::new(),
    };
    assert(texts(properties@) =~= launch_options_in(text_view(localconfig_vdf)));
    let listed = match libraryfolders_vdf {
        Some(contents) => match read_installed_apps(contents) {
            Ok(appids) => Some(appids),
            Err(_) => None,
        },
        None => None,
    };
    let appids = match listed {
        Some(appids) => appids,
        None => {
            let keys = decimal_keys(&properties);
            assert(properties@.dom() =~= texts(properties@).dom());
            keys
        },
    };
    Some(get_installed_apps(&appids, &properties, app_names))
}

/// Whether a row named `app_name` passes the filter: an empty filter lets
/// every row pass, any other lets those pass whose name holds the filter,
/// the filter cut of the white space at its ends and both taken in lower
/// case.
pub open spec fn passes_filter(filter: Seq<char>, app_name: Seq<char>) -> bool {
    filter.len() == 0 || holds_text(lowercased(app_name), lowercased(trimmed(filter)))
}

/// Tells whether a row named `app_name` passes the filter.
pub fn is_filtered(filter: &String, app_name: &String) -> (shown: bool)
    ensures
        shown == passes_filter(filter@, app_name@),
{
    if filter.as_str().is_empty() {
        return true;
    }
    let name = lowercase(app_name.as_str());
    let wanted = lowercase(trim(filter.as_str()));
    contains_chars(&chars_of(name.as_str()), &chars_of(wanted.as_str()))
}

/// Whether the row `a` is listed before the row `b`. By name, the names
/// count in lower case and in the order of strings, and rows of one name
/// stand by rising identifier.
pub open spec fn sorts_before(sort: AppSort, a: (u32, Seq<char>), b: (u32, Seq<char>)) -> bool {
    match sort {
        AppSort::IdAscending => a.0 < b.0,
        AppSort::IdDescending => a.0 > b.0,
        AppSort::NameAscending => text_before(lowercased(a.1), lowercased(b.1)) || (lowercased(a.1)
            == lowercased(b.1) && a.0 < b.0),
        AppSort::NameDescending => text_before(lowercased(b.1), lowercased(a.1)) || (lowercased(
            a.1,
        ) == lowercased(b.1) && a.0 < b.0),
    }
}

/// The identifier and the name of a listed row.
pub open spec fn row_key(row: (&u32, &App)) -> (u32, Seq<char>) {
    (*row.0, row.1.name@)
}

/// Whether `rows` lists exactly the rows of `apps`, each once, in the order
/// `sort`.
pub open spec fn is_listing(rows: Seq<(&u32, &App)>, apps: Map<u32, App>, sort: AppSort) -> bool {
    &&& forall|i: int, j: int|
        0 <= i < j < rows.len() ==> sorts_before(sort, row_key(rows[i]), row_key(rows[j]))
    &&& forall|i: int|
        0 <= i < rows.len() ==> apps.contains_key(*(#[trigger] rows[i]).0) && apps[*rows[i].0]
            == *rows[i].1
    &&& forall|id: u32|
        apps.contains_key(id) ==> exists|i: int| 0 <= i < rows.len() && *(#[trigger] rows[i]).0 == id
}

/// Of two rows with different identifiers one is listed before the other.
pub proof fn lemma_sort_total(sort: AppSort, a: (u32, Seq<char>), b: (u32, Seq<char>))
    requires
        a.0 != b.0,
    ensures
        sorts_before(sort, a, b) || sorts_before(sort, b, a),
{
    lemma_text_order_total(lowercased(a.1), lowercased(b.1));
}

/// Being listed before is transitive.
pub proof fn lemma_sort_transitive(
    sort: AppSort,
    a: (u32, Seq<char>),
    b: (u32, Seq<char>),
    c: (u32, Seq<char>),
)
    requires
        sorts_before(sort, a, b),
        sorts_before(sort, b, c),
    ensures
        sorts_before(sort, a, c),
{
    let (x, y, z) = (lowercased(a.1), lowercased(b.1), lowercased(c.1));
    match sort {
        AppSort::NameAscending => {
            if text_before(x, y) && text_before(y, z) {
                lemma_text_order_transitive(x, y, z);
            }
        },
        AppSort::NameDescending => {
            if text_before(z, y) && text_before(y, x) {
                lemma_text_order_transitive(z, y, x);
            }
        },
        _ => {},
    }
}

/// Tells whether the row with identifier `a` is listed before the row with
/// identifier `b`, given their names in lower case.
fn row_before(sort: AppSort, a: u32, a_name: &Vec<char>, b: u32, b_name: &Vec<char>) -> (before:
    bool)
    ensures
        before == match sort {
            AppSort::IdAscending => a < b,
            AppSort::IdDescending => a > b,
            AppSort::NameAscending => text_before(a_name@, b_name@) || (a_name@ == b_name@ && a
                < b),
            AppSort::NameDescending => text_before(b_name@, a_name@) || (a_name@ == b_name@ && a
                < b),
        },
{
    match sort {
        AppSort::IdAscending => a < b,
        AppSort::IdDescending => a > b,
        AppSort::NameAscending => chars_before(a_name, b_name) || (same_chars(a_name, b_name) && a
            < b),
        AppSort::NameDescending => chars_before(b_name, a_name) || (same_chars(a_name, b_name)
            && a < b),
    }
}

/// Whether each of `keys` is listed before all that follow it.
pub open spec fn in_order(sort: AppSort, keys: Seq<(u32, Seq<char>)>) -> bool {
    forall|i: int, j: int| 0 <= i < j < keys.len() ==> sorts_before(sort, keys[i], keys[j])
}

/// The identifiers and names of a list of rows.
pub open spec fn row_keys(rows: Seq<(&u32, &App)>) -> Seq<(u32, Seq<char>)> {
    Seq::new(rows.len(), |i: int| row_key(rows[i]))
}

/// A row put into an ordered list behind the rows that are listed before it
/// and in front of the first that is not leaves the list ordered.
proof fn lemma_insert_in_order(
    sort: AppSort,
    keys: Seq<(u32, Seq<char>)>,
    at: int,
    new: (u32, Seq<char>),
)
    requires
        in_order(sort, keys),
        0 <= at <= keys.len(),
        forall|i: int| 0 <= i < at ==> sorts_before(sort, #[trigger] keys[i], new),
        at < keys.len() ==> !sorts_before(sort, keys[at], new),
        forall|i: int| 0 <= i < keys.len() ==> (#[trigger] keys[i]).0 != new.0,
    ensures
        in_order(sort, keys.insert(at, new)),
{
    let after = keys.insert(at, new);
    assert forall|i: int, j: int| 0 <= i < j < after.len() implies sorts_before(
        sort,
        after[i],
        after[j],
    ) by {
        if at < keys.len() {
            lemma_sort_total(sort, keys[at], new);
        }
        if i == at {
            assert(after[j] == keys[j - 1]);
            if j - 1 > at {
                lemma_sort_transitive(sort, new, keys[at], keys[j - 1]);
            }
        } else if j == at {
            assert(after[i] == keys[i]);
        } else {
            let a = if i < at {
                i
            } else {
                i - 1
            };
            let b = if j < at {
                j
            } else {
                j - 1
            };
            assert(after[i] == keys[a] && after[j] == keys[b]);
        }
    }
}

/// Puts a row into an ordered list of rows at its place, and its name in
/// lower case at the same place among the names.
fn insert_row<'a>(
    sort: AppSort,
    rows: &mut Vec<(&'a u32, &'a App)>,
    names: &mut Vec<Vec<char>>,
    id: &'a u32,
    app: &'a App,
) -> (at: usize)
    requires
        old(rows)@.len() == old(names)@.len(),
        forall|i: int|
            0 <= i < old(rows)@.len() ==> (#[trigger] old(names)@[i])@ == lowercased(
                old(rows)@[i].1.name@,
            ),
        in_order(sort, row_keys(old(rows)@)),
        forall|i: int| 0 <= i < old(rows)@.len() ==> *(#[trigger] old(rows)@[i]).0 != *id,
    ensures
        at <= old(rows)@.len(),
        final(rows)@ == old(rows)@.insert(at as int, (id, app)),
        final(rows)@.len() == final(names)@.len(),
        forall|i: int|
            0 <= i < final(rows)@.len() ==> (#[trigger] final(names)@[i])@ == lowercased(
                final(rows)@[i].1.name@,
            ),
        in_order(sort, row_keys(final(rows)@)),
{
    let name = chars_of(lowercase(app.name.as_str()).as_str());
    let ghost new_key = (*id, app.name@);
    let ghost keys = row_keys(rows@);
    let n = rows.len();
    let mut at: usize = 0;
    while at < n
        invariant
            at <= n,
            n == rows@.len(),
            n == names@.len(),
            keys == row_keys(rows@),
            name@ == lowercased(app.name@),
            new_key == (*id, app.name@),
            forall|i: int| 0 <= i < n ==> (#[trigger] names@[i])@ == lowercased(rows@[i].1.name@),
            forall|i: int| 0 <= i < at ==> sorts_before(sort, #[trigger] keys[i], new_key),
        ensures
            at <= n,
            forall|i: int| 0 <= i < at ==> sorts_before(sort, #[trigger] keys[i], new_key),
            at < n ==> !sorts_before(sort, keys[at as int], new_key),
        decreases n - at,
    {
        assert(keys[at as int] == row_key(rows@[at as int]));
        if !row_before(sort, *rows[at].0, &names[at], *id, &name) {
            break;
        }
        at += 1;
    }
    let ghost old_rows = rows@;
    let ghost old_names = names@;
    proof {
        assert forall|i: int| 0 <= i < keys.len() implies (#[trigger] keys[i]).0 != new_key.0 by {
            assert(keys[i] == row_key(old_rows[i]));
        }
        lemma_insert_in_order(sort, keys, at as int, new_key);
    }
    rows.insert(at, (id, app));
    names.insert(at, name);
    proof {
        assert(row_keys(rows@) =~= keys.insert(at as int, new_key));
        assert forall|i: int| 0 <= i < rows@.len() implies (#[trigger] names@[i])@ == lowercased(
            rows@[i].1.name@,
        ) by {
            if i > at {
                assert(names@[i] == old_names[i - 1] && rows@[i] == old_rows[i - 1]);
            } else if i < at {
                assert(names@[i] == old_names[i] && rows@[i] == old_rows[i]);
            }
        }
    }
    at
}

/// Lists the rows of the table in the order `sort`.
pub fn sort_apps(sort: AppSort, apps: &BTreeMap<u32, App>) -> (rows: Vec<(&u32, &App)>)
    ensures
        is_listing(rows@, apps@, sort),
{
    let pairs = ascending(apps);
    let mut rows: Vec<(&u32, &App)> = Vec::new();
    let mut names: Vec<Vec<char>> = Vec::new();
    let ghost mut place: Seq<int> = Seq::empty();
    let mut k: usize = 0;
    while k < pairs.len()
        invariant
            k <= pairs.len(),
            lists(pairs@, apps@),
            rows@.len() == k,
            names@.len() == k,
            place.len() == k,
            forall|i: int| 0 <= i < k ==> (#[trigger] names@[i])@ == lowercased(rows@[i].1.name@),
            in_order(sort, row_keys(rows@)),
            forall|i: int|
                0 <= i < k ==> apps@.contains_key(*(#[trigger] rows@[i]).0) && apps@[*rows@[i].0]
                    == *rows@[i].1,
            forall|i: int, j: int|
                0 <= i < k <= j < pairs@.len() ==> *(#[trigger] rows@[i]).0 < *(
                #[trigger] pairs@[j]).0,
            forall|j: int|
                0 <= j < k ==> 0 <= #[trigger] place[j] < k && *rows@[place[j]].0 == *pairs@[j].0,
        decreases pairs.len() - k,
    {
        let ghost old_rows = rows@;
        let ghost old_place = place;
        let at = insert_row(sort, &mut rows, &mut names, pairs[k].0, pairs[k].1);
        proof {
            place = Seq::new(
                k as nat,
                |j: int|
                    if old_place[j] < at {
                        old_place[j]
                    } else {
                        old_place[j] + 1
                    },
            ).push(at as int);
            assert forall|i: int| 0 <= i < k + 1 implies apps@.contains_key(
                *(#[trigger] rows@[i]).0,
            ) && apps@[*rows@[i].0] == *rows@[i].1 by {
                if i < at {
                    assert(rows@[i] == old_rows[i]);
                } else if i > at {
                    assert(rows@[i] == old_rows[i - 1]);
                }
            }
            assert forall|i: int, j: int| 0 <= i < k + 1 <= j < pairs@.len() implies *(
            #[trigger] rows@[i]).0 < *(#[trigger] pairs@[j]).0 by {
                if i < at {
                    assert(rows@[i] == old_rows[i]);
                } else if i > at {
                    assert(rows@[i] == old_rows[i - 1]);
                } else {
                    assert(*pairs@[k as int].0 < *pairs@[j].0);
                }
            }
            assert forall|j: int| 0 <= j < k + 1 implies 0 <= #[trigger] place[j] < k + 1
                && *rows@[place[j]].0 == *pairs@[j].0 by {
                if j < k {
                    assert(0 <= old_place[j] < k);
                    assert(rows@[place[j]] == old_rows[old_place[j]]);
                }
            }
        }
        k += 1;
    }
    proof {
        assert forall|i: int, j: int| 0 <= i < j < rows@.len() implies sorts_before(
            sort,
            row_key(rows@[i]),
            row_key(rows@[j]),
        ) by {
            assert(row_keys(rows@)[i] == row_key(rows@[i]));
            assert(row_keys(rows@)[j] == row_key(rows@[j]));
        }
        assert forall|id: u32| apps@.contains_key(id) implies exists|i: int|
            0 <= i < rows@.len() && *(#[trigger] rows@[i]).0 == id by {
            let j = choose|j: int| 0 <= j < pairs@.len() && *(#[trigger] pairs@[j]).0 == id;
            assert(*rows@[place[j]].0 == id);
        }
    }
    rows
}

/// What `PathBuf::pop` leaves of a path, by the rules of the target that
/// the library is compiled for.
pub uninterp spec fn popped_path(path: Seq<char>) -> Seq<char>;

/// What `PathBuf::push` makes of a path and a component, by the rules of
/// the target that the library is compiled for.
pub uninterp spec fn pushed_path(path: Seq<char>, component: Seq<char>) -> Seq<char>;

/// Calls `PathBuf::pop` on the path that `path` spells and spells the result:
/// the path without its last component, or the path as it is where there is
/// none to take off.
#[verifier::external_body]
fn pop_path(path: &str) -> (parent: String)
    ensures
        parent@ == popped_path(path@),
{
    let mut buffer = std::path::PathBuf::from(path);
    buffer.pop();
    buffer.to_string_lossy().into_owned()
}

/// Calls `PathBuf::push` on the path that `path` spells and spells the
/// result: the path extended by `component`.
#[verifier::external_body]
fn push_path(path: &str, component: &str) -> (joined: String)
    ensures
        joined@ == pushed_path(path@, component@),
{
    let mut buffer = std::path::PathBuf::from(path);
    buffer.push(component);
    buffer.to_string_lossy().into_owned()
}

/// Where the library-folders document lies, seen from the local
/// configuration document: four components up, then `config`, then
/// `libraryfolders.vdf`.
pub open spec fn config_path(localconfig_vdf_path: Seq<char>) -> Seq<char> {
    pushed_path(
        pushed_path(
            popped_path(popped_path(popped_path(popped_path(localconfig_vdf_path)))),
            "config"@,
        ),
        "libraryfolders.vdf"@,
    )
}

/// Finds the path of the library-folders document from the path of the
/// local configuration document.
pub fn config_dir(localconfig_vdf_path: &String) -> (path: String)
    ensures
        path@ == config_path(localconfig_vdf_path@),
{
    let up1 = pop_path(localconfig_vdf_path.as_str());
    let up2 = pop_path(up1.as_str());
    let up3 = pop_path(up2.as_str());
    let up4 = pop_path(up3.as_str());
    let config = push_path(up4.as_str(), "config");
    push_path(config.as_str(), "libraryfolders.vdf")
}

} // verus!
