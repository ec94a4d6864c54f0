//! The launch options while they are being edited: the texts that the table
//! shows, and what the commands of the editor make of them.

use crate::app_id::{decimal, decimal_text};
use crate::catalog::{apps_view, App, AppView};
use crate::id_map::{
    ascending, lemma_all_passed, lemma_next_pair, lists, look_up, passed, put, texts,
};
use crate::text::{blank, is_blank};
use std::collections::BTreeMap;
use vstd::prelude::*;

verus! {

/// The texts after a default was applied: with a blank default nothing
/// changes; else every text that is empty, or that is the default that was
/// in force before, becomes the new default.
pub open spec fn with_default(
    all: Map<u32, Seq<char>>,
    previous_default: Seq<char>,
    default: Seq<char>,
) -> Map<u32, Seq<char>> {
    Map::new(
        |id: u32| all.contains_key(id),
        |id: u32|
            if !is_blank(default) && (all[id].len() == 0 || all[id] == previous_default) {
                default
            } else {
                all[id]
            },
    )
}

/// Applies the default launch options to the texts being edited.
pub fn apply_default_launch_options(
    all_launch_options: &BTreeMap<u32, String>,
    previous_default: &String,
    default: &String,
) -> (applied: BTreeMap<u32, String>)
    ensures
        texts(applied@) == with_default(texts(all_launch_options@), previous_default@, default@),
{
    let pairs = ascending(all_launch_options);
    let overrides = !blank(default.as_str());
    let mut applied: BTreeMap<u32, String> = BTreeMap::new();
    let ghost wanted = with_default(texts(all_launch_options@), previous_default@, default@);
    let mut k: usize = 0;
    while k < pairs.len()
        invariant
            k <= pairs.len(),
            lists(pairs@, all_launch_options@),
            overrides == !is_blank(default@),
            wanted == with_default(texts(all_launch_options@), previous_default@, default@),
            forall|id: u32|
                #[trigger] applied@.contains_key(id) <==> all_launch_options@.contains_key(id)
                    && id < passed(pairs@, k as int),
            forall|id: u32| applied@.contains_key(id) ==> (#[trigger] applied@[id])@ == wanted[id],
        decreases pairs.len() - k,
    {
        let id = *pairs[k].0;
        let text: &String = pairs[k].1;
        proof {
            lemma_next_pair(pairs@, all_launch_options@, k as int);
        }
        let replaced = overrides && (text.as_str().is_empty() || *text == *previous_default);
        let value = if replaced {
            default.clone()
        } else {
            text.clone()
        };
        put(&mut applied, id, value);
        k += 1;
    }
    proof {
        lemma_all_passed(pairs@, all_launch_options@);
        assert(texts(applied@) =~= wanted);
    }
    applied
}

/// The texts after they were cleared: an empty text for every application.
pub open spec fn cleared(all: Map<u32, Seq<char>>) -> Map<u32, Seq<char>> {
    Map::new(|id: u32| all.contains_key(id), |id: u32| Seq::empty())
}

/// Clears the texts being edited.
pub fn clear_launch_options(all_launch_options: &BTreeMap<u32, String>) -> (emptied: BTreeMap<
    u32,
    String,
>)
    ensures
        texts(emptied@) == cleared(texts(all_launch_options@)),
{
    let pairs = ascending(all_launch_options);
    let mut emptied: BTreeMap<u32, String> = BTreeMap::new();
    let mut k: usize = 0;
    while k < pairs.len()
        invariant
            k <= pairs.len(),
            lists(pairs@, all_launch_options@),
            forall|id: u32|
                #[trigger] emptied@.contains_key(id) <==> all_launch_options@.contains_key(id)
                    && id < passed(pairs@, k as int),
            forall|id: u32|
                emptied@.contains_key(id) ==> (#[trigger] emptied@[id])@ == Seq::<char>::empty(),
        decreases pairs.len() - k,
    {
        proof {
            lemma_next_pair(pairs@, all_launch_options@, k as int);
        }
        put(&mut emptied, *pairs[k].0, String::new());
        k += 1;
    }
    proof {
        lemma_all_passed(pairs@, all_launch_options@);
        assert(texts(emptied@) =~= cleared(texts(all_launch_options@)));
    }
    emptied
}

/// The texts after the table's rows were restored: every row's application
/// has the launch options of its row, every other application keeps its
/// text.
pub open spec fn restored(all: Map<u32, Seq<char>>, apps: Map<u32, AppView>) -> Map<
    u32,
    Seq<char>,
> {
    Map::new(
        |id: u32| all.contains_key(id) || apps.contains_key(id),
        |id: u32|
            if apps.contains_key(id) {
                apps[id].launch_options
            } else {
                all[id]
            },
    )
}

/// Puts the launch options of the table's rows back into the texts being
/// edited.
pub fn restore_launch_options(
    all_launch_options: &mut BTreeMap<u32, String>,
    apps: &BTreeMap<u32, App>,
)
    ensures
        texts(final(all_launch_options)@) == restored(
            texts(old(all_launch_options)@),
            apps_view(apps@),
        ),
{
    let pairs = ascending(apps);
    let ghost start = all_launch_options@;
    let mut k: usize = 0;
    while k < pairs.len()
        invariant
            k <= pairs.len(),
            lists(pairs@, apps@),
            forall|id: u32|
                #[trigger] all_launch_options@.contains_key(id) <==> start.contains_key(id) || (
                apps@.contains_key(id) && id < passed(pairs@, k as int)),
            forall|id: u32|
                all_launch_options@.contains_key(id) ==> (#[trigger] all_launch_options@[id])@
                    == if apps@.contains_key(id) && id < passed(pairs@, k as int) {
                    apps@[id].launch_options@
                } else {
                    start[id]@
                },
        decreases pairs.len() - k,
    {
        proof {
            lemma_next_pair(pairs@, apps@, k as int);
        }
        put(all_launch_options, *pairs[k].0, pairs[k].1.launch_options.clone());
        k += 1;
    }
    proof {
        lemma_all_passed(pairs@, apps@);
        assert(texts(all_launch_options@) =~= restored(texts(start), apps_view(apps@)));
    }
}

/// Gives the text that the table shows for a row: the text being edited
/// for the row's application, or, where there is none yet, the launch
/// options of the row, which from then on are the text being edited.
pub fn shown_launch_options(
    all_launch_options: &mut BTreeMap<u32, String>,
    id: u32,
    app: &App,
) -> (shown: String)
    ensures
        old(all_launch_options)@.contains_key(id) ==> final(all_launch_options)@ == old(
            all_launch_options,
        )@ && shown@ == old(all_launch_options)@[id]@,
        !old(all_launch_options)@.contains_key(id) ==> shown@ == app.launch_options@ && texts(
            final(all_launch_options)@,
        ) == texts(old(all_launch_options)@).insert(id, app.launch_options@),
{
    let ghost before = all_launch_options@;
    let known = match look_up(all_launch_options, id) {
        Some(text) => Some(text.clone()),
        None => None,
    };
    match known {
        Some(text) => text,
        None => {
            put(all_launch_options, id, app.launch_options.clone());
            assert(texts(all_launch_options@) =~= texts(before).insert(id, app.launch_options@));
            app.launch_options.clone()
        },
    }
}

/// The page of an application: on ProtonDB where `protondb` is set, else in
/// the store.
pub open spec fn page_of(protondb: bool, id: u32) -> Seq<char> {
    if protondb {
        "https://www.protondb.com/app/"@ + decimal(id as nat)
    } else {
        "https://store.steampowered.com/app/"@ + decimal(id as nat)
    }
}

/// Gives the address of the page of an application.
pub fn app_url(protondb: bool, id: u32) -> (url: String)
    ensures
        url@ == page_of(protondb, id),
{
    let mut url = if protondb {
        String::from_str("https://www.protondb.com/app/")
    } else {
        String::from_str("https://store.steampowered.com/app/")
    };
    let key = decimal_text(id);
    url.append(key.as_str());
    url
}

} // verus!
