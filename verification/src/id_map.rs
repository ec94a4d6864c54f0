//! Maps keyed by identifier, and the few things the library asks of them.
//! Identifiers come in two widths: `u32` for applications, `u64` where a
//! document is read for every key that spells a number.

use std::collections::BTreeMap;
use vstd::prelude::*;
use vstd::std_specs::cmp::OrdSpec;
use vstd::std_specs::iter::IteratorSpec;

verus! {

/// An unsigned integer that serves as an identifier.
pub trait Id: Copy + Sized {
    /// The number that the identifier is.
    spec fn rank(self) -> nat;
}

impl Id for u32 {
    open spec fn rank(self) -> nat {
        self as nat
    }
}

impl Id for u64 {
    open spec fn rank(self) -> nat {
        self as nat
    }
}

/// A map of strings, each taken as its text.
pub open spec fn texts<K>(map: Map<K, String>) -> Map<K, Seq<char>> {
    Map::new(|id: K| map.contains_key(id), |id: K| map[id]@)
}

/// Whether `pairs` lists exactly what `map` holds, by rising identifier.
pub open spec fn lists<K: Id, V>(pairs: Seq<(&K, &V)>, map: Map<K, V>) -> bool {
    &&& forall|i: int, j: int|
        0 <= i < j < pairs.len() ==> (*pairs[i].0).rank() < (*pairs[j].0).rank()
    &&& forall|i: int|
        0 <= i < pairs.len() ==> map.contains_key(*(#[trigger] pairs[i]).0) && map[*pairs[i].0]
            == *pairs[i].1
    &&& forall|id: K|
        map.contains_key(id) ==> exists|i: int|
            0 <= i < pairs.len() && *(#[trigger] pairs[i]).0 == id
}

/// The bound that the first `done` pairs of a rising list have passed: one
/// more than the identifier of the last of them.
pub open spec fn passed<K: Id, V>(pairs: Seq<(&K, &V)>, done: int) -> nat {
    if done <= 0 {
        0
    } else {
        (*pairs[done - 1].0).rank() + 1
    }
}

/// In a rising list of what a map holds, the pair at index `k` is the only
/// entry of the map between the bound passed before it and the bound passed
/// with it.
pub proof fn lemma_next_pair<K: Id, V>(pairs: Seq<(&K, &V)>, map: Map<K, V>, k: int)
    requires
        lists(pairs, map),
        0 <= k < pairs.len(),
    ensures
        map.contains_key(*pairs[k].0),
        map[*pairs[k].0] == *pairs[k].1,
        passed(pairs, k) <= (*pairs[k].0).rank() < passed(pairs, k + 1),
        forall|id: K|
            passed(pairs, k) <= id.rank() < passed(pairs, k + 1) && #[trigger] map.contains_key(id)
                ==> id == *pairs[k].0,
{
    assert forall|id: K|
        passed(pairs, k) <= id.rank() < passed(pairs, k + 1) && #[trigger] map.contains_key(
            id,
        ) implies id == *pairs[k].0 by {
        let j = choose|j: int| 0 <= j < pairs.len() && *(#[trigger] pairs[j]).0 == id;
        if j < k {
            assert((*pairs[j].0).rank() <= (*pairs[k - 1].0).rank());
        } else if j > k {
            assert((*pairs[k].0).rank() < (*pairs[j].0).rank());
        }
    }
    if k > 0 {
        assert((*pairs[k - 1].0).rank() < (*pairs[k].0).rank());
    }
}

/// A rising list of what a map holds has, at its end, passed every entry of
/// the map.
pub proof fn lemma_all_passed<K: Id, V>(pairs: Seq<(&K, &V)>, map: Map<K, V>)
    requires
        lists(pairs, map),
    ensures
        forall|id: K|
            #[trigger] map.contains_key(id) ==> id.rank() < passed(pairs, pairs.len() as int),
{
    assert forall|id: K| #[trigger] map.contains_key(id) implies id.rank() < passed(
        pairs,
        pairs.len() as int,
    ) by {
        let j = choose|j: int| 0 <= j < pairs.len() && *(#[trigger] pairs[j]).0 == id;
        if j < pairs.len() - 1 {
            assert((*pairs[j].0).rank() < (*pairs[pairs.len() - 1].0).rank());
        }
    }
}

/// Tells whether `map` has an entry for `id`.
pub fn contains_id<V>(map: &BTreeMap<u32, V>, id: u32) -> (found: bool)
    ensures
        found == map@.contains_key(id),
{
    broadcast use vstd::laws_cmp::group_laws_cmp;

    map.contains_key(&id)
}

/// Tells whether `map` has an entry for the wide identifier `id`.
pub fn contains_wide_id<V>(map: &BTreeMap<u64, V>, id: u64) -> (found: bool)
    ensures
        found == map@.contains_key(id),
{
    broadcast use vstd::laws_cmp::group_laws_cmp;

    map.contains_key(&id)
}

/// The entry of `map` for `id`.
pub fn look_up<'a, V>(map: &'a BTreeMap<u32, V>, id: u32) -> (found: Option<&'a V>)
    ensures
        match found {
            Some(value) => map@.contains_key(id) && map@[id] == *value,
            None => !map@.contains_key(id),
        },
{
    broadcast use vstd::laws_cmp::group_laws_cmp;

    map.get(&id)
}

/// Sets the entry of `map` for `id`.
pub fn put<V>(map: &mut BTreeMap<u32, V>, id: u32, value: V)
    ensures
        final(map)@ == old(map)@.insert(id, value),
{
    broadcast use vstd::laws_cmp::group_laws_cmp;

    map.insert(id, value);
}

/// Sets the entry of `map` for the wide identifier `id`.
pub fn put_wide<V>(map: &mut BTreeMap<u64, V>, id: u64, value: V)
    ensures
        final(map)@ == old(map)@.insert(id, value),
{
    broadcast use vstd::laws_cmp::group_laws_cmp;

    map.insert(id, value);
}

/// Lists what `map` holds in the order of its keys.
fn in_key_order<'a, K: Ord, V>(map: &'a BTreeMap<K, V>) -> (pairs: Vec<(&'a K, &'a V)>)
    requires
        vstd::laws_cmp::obeys_cmp::<K>(),
    ensures
        forall|i: int, j: int|
            0 <= i < j < pairs@.len() ==> (*pairs@[i].0).cmp_spec(&*pairs@[j].0) is Less,
        forall|i: int|
            0 <= i < pairs@.len() ==> map@.contains_key(*(#[trigger] pairs@[i]).0)
                && map@[*pairs@[i].0] == *pairs@[i].1,
        forall|id: K|
            map@.contains_key(id) ==> exists|i: int|
                0 <= i < pairs@.len() && *(#[trigger] pairs@[i]).0 == id,
{
    let mut pairs: Vec<(&'a K, &'a V)> = Vec::new();
    let iter = map.iter();
    let ghost all = iter.remaining();
    proof {
        let ids = all.map_values(|pair: (&K, &V)| *pair.0);
        vstd::std_specs::btree::axiom_increasing_seq_meaning::<K>(ids);
        assert forall|i: int, j: int| 0 <= i < j < all.len() implies (*all[i].0).cmp_spec(
            &*all[j].0,
        ) is Less by {
            assert(ids[i] == *all[i].0);
            assert(ids[j] == *all[j].0);
            assert(ids[i].cmp_spec(&ids[j]) is Less);
        }
    }
    for pair in it: iter
        invariant
            it.seq() == all,
            pairs@.len() == it.index(),
            forall|i: int|
                0 <= i < pairs@.len() ==> *(#[trigger] pairs@[i]).0 == *all[i].0 && *pairs@[i].1
                    == *all[i].1,
    {
        pairs.push((pair.0, pair.1));
    }
    proof {
        assert forall|i: int, j: int| 0 <= i < j < pairs@.len() implies (*pairs@[i].0).cmp_spec(
            &*pairs@[j].0,
        ) is Less by {
            assert(*pairs@[i].0 == *all[i].0);
            assert(*pairs@[j].0 == *all[j].0);
        }
        assert forall|i: int| 0 <= i < pairs@.len() implies map@.contains_key(
            *(#[trigger] pairs@[i]).0,
        ) && map@[*pairs@[i].0] == *pairs@[i].1 by {
            assert(map@.contains_key(*all[i].0));
            assert(map@[*all[i].0] == *all[i].1);
        }
        assert forall|id: K| map@.contains_key(id) implies exists|i: int|
            0 <= i < pairs@.len() && *(#[trigger] pairs@[i]).0 == id by {
            assert(all.contains((&id, &map@[id])));
            let i = choose|i: int| 0 <= i < all.len() && all[i] == (&id, &map@[id]);
            assert(*pairs@[i].0 == id);
        }
    }
    pairs
}

/// Lists what `map` holds by rising identifier.
pub fn ascending<'a, V>(map: &'a BTreeMap<u32, V>) -> (pairs: Vec<(&'a u32, &'a V)>)
    ensures
        lists(pairs@, map@),
{
    broadcast use vstd::laws_cmp::group_laws_cmp;

    let pairs = in_key_order(map);
    proof {
        assert forall|i: int, j: int| 0 <= i < j < pairs@.len() implies *pairs@[i].0
            < *pairs@[j].0 by {
            assert((*pairs@[i].0).cmp_spec(&*pairs@[j].0) is Less);
        }
    }
    pairs
}

/// Lists what `map` holds by rising wide identifier.
pub fn ascending_wide<'a, V>(map: &'a BTreeMap<u64, V>) -> (pairs: Vec<(&'a u64, &'a V)>)
    ensures
        lists(pairs@, map@),
{
    broadcast use vstd::laws_cmp::group_laws_cmp;

    let pairs = in_key_order(map);
    proof {
        assert forall|i: int, j: int| 0 <= i < j < pairs@.len() implies *pairs@[i].0
            < *pairs@[j].0 by {
            assert((*pairs@[i].0).cmp_spec(&*pairs@[j].0) is Less);
        }
    }
    pairs
}

} // verus!
