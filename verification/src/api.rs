//! The directory of application names, as it comes from the store's list of
//! applications.

use crate::id_map::{put, texts};
use std::collections::BTreeMap;
use vstd::prelude::*;

verus! {

/// A list of applications as it is held in memory, taken as its value: for
/// each its identifier and its name.
pub open spec fn applist_view(apps: Seq<(u32, String)>) -> Seq<(u32, Seq<char>)> {
    Seq::new(apps.len(), |i: int| (apps[i].0, apps[i].1@))
}

/// The names of the listed applications by identifier; where an identifier
/// is listed more than once, its last name counts.
pub open spec fn names_of(apps: Seq<(u32, Seq<char>)>) -> Map<u32, Seq<char>>
    decreases apps.len(),
{
    if apps.len() == 0 {
        Map::empty()
    } else {
        names_of(apps.drop_last()).insert(apps.last().0, apps.last().1)
    }
}

/// Builds the directory of application names from the list of applications.
pub fn app_names(apps: Vec<(u32, String)>) -> (names: BTreeMap<u32, String>)
    ensures
        texts(names@) == names_of(applist_view(apps@)),
{
    let ghost all = applist_view(apps@);
    let mut names: BTreeMap<u32, String> = BTreeMap::new();
    let mut i: usize = 0;
    assert(texts(names@) =~= names_of(all.take(0)));
    while i < apps.len()
        invariant
            i <= apps.len(),
            all == applist_view(apps@),
            texts(names@) == names_of(all.take(i as int)),
        decreases apps.len() - i,
    {
        let ghost before = texts(names@);
        assert(all.take(i + 1).drop_last() =~= all.take(i as int));
        assert(all.take(i + 1).last() == all[i as int]);
        put(&mut names, apps[i].0, apps[i].1.clone());
        assert(texts(names@) =~= before.insert(all[i as int].0, all[i as int].1));
        i += 1;
    }
    assert(all.take(i as int) =~= all);
    names
}

} // verus!
