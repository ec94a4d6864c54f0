//! Launch options: reading them out of the collection of per-application
//! entries, and merging edited ones back into it.

use crate::app_id::{
    id_of, decimal, id_text, lemma_parse_decimal, names, parse_id,
};
use crate::id_map::{
    ascending_wide, contains_wide_id, lemma_all_passed, lemma_next_pair, lists, passed, put_wide,
    texts,
};
use crate::node::{
    by_key, clone_entries, entries_view, find_key, first_match, lemma_first_match,
    lemma_first_match_is, lemma_section_view, not_keyed, with_child, without_key, Entries, KvNode,
    KvTree,
};
use crate::text::{blank, is_blank};
use std::collections::BTreeMap;
use vstd::prelude::*;

verus! {

/// The key under which an entry keeps its launch options.
pub open spec fn option_key() -> Seq<char> {
    "LaunchOptions"@
}

/// The launch options that an entry holds: the text of its first child keyed
/// `LaunchOptions` where that child is a scalar, else the empty text.
pub open spec fn launch_options_of(entry: KvTree) -> Seq<char> {
    match entry.scalar(option_key()) {
        Some(text) => text,
        None => Seq::empty(),
    }
}

/// The index of the entry of application `id`: the first whose key spells
/// `id`, or the number of entries where none does.
pub open spec fn entry_at(apps: Entries, id: u64) -> int {
    first_match(apps, names(id))
}

/// The entry of application `id`.
pub open spec fn entry_of(apps: Entries, id: u64) -> Option<KvTree> {
    if entry_at(apps, id) < apps.len() {
        Some(apps[entry_at(apps, id)].1)
    } else {
        None
    }
}

/// The launch options of every application that has an entry.
pub open spec fn extracted(apps: Entries) -> Map<u64, Seq<char>> {
    Map::new(
        |id: u64| entry_at(apps, id) < apps.len(),
        |id: u64| launch_options_of(apps[entry_at(apps, id)].1),
    )
}

/// Reading gives exactly one entry for each identifier that the key of some
/// child spells, and none else.
pub proof fn lemma_extracted_domain(apps: Entries, id: u64)
    ensures
        extracted(apps).contains_key(id) <==> exists|i: int|
            0 <= i < apps.len() && parse_id((#[trigger] apps[i]).0) == Some(id),
{
    lemma_first_match(apps, names(id));
    if exists|i: int| 0 <= i < apps.len() && parse_id((#[trigger] apps[i]).0) == Some(id) {
        let i = choose|i: int|
            0 <= i < apps.len() && parse_id((#[trigger] apps[i]).0) == Some(id);
        assert(names(id)(apps[i].0));
    }
    if entry_at(apps, id) < apps.len() {
        assert(parse_id(apps[entry_at(apps, id)].0) == Some(id));
    }
}

/// What an edit leaves in an entry: a blank text clears the option.
pub open spec fn normal(value: Seq<char>) -> Seq<char> {
    if is_blank(value) {
        Seq::empty()
    } else {
        value
    }
}

/// An entry after its launch options were set to `value`: without any
/// `LaunchOptions` child where `value` is blank, else with `value` as the
/// first such child. The other children stay as they are, in their order; an
/// entry that was a scalar counts as a section without children.
pub open spec fn edited_entry(entry: KvTree, value: Seq<char>) -> KvTree {
    if is_blank(value) {
        KvTree::Section(without_key(entry.children(), option_key()))
    } else {
        KvTree::Section(with_child(entry.children(), option_key(), KvTree::Scalar(value)))
    }
}

/// Whether the entry at index `i` is the one that an edit of an application
/// below `bound` changes.
pub open spec fn is_edited(apps: Entries, edits: Map<u64, Seq<char>>, bound: nat, i: int) -> bool {
    match parse_id(apps[i].0) {
        Some(id) => id < bound && edits.contains_key(id) && entry_at(apps, id) == i,
        None => false,
    }
}

/// The entries that were there, each edited where an edit of an application
/// below `bound` is for it.
pub open spec fn edited_below(apps: Entries, edits: Map<u64, Seq<char>>, bound: nat) -> Entries {
    Seq::new(
        apps.len(),
        |i: int|
            if is_edited(apps, edits, bound, i) {
                (apps[i].0, edited_entry(apps[i].1, edits[parse_id(apps[i].0).unwrap()]))
            } else {
                apps[i]
            },
    )
}

/// Whether `edits` speaks of an application `id` that has no entry yet.
pub open spec fn creates(apps: Entries, edits: Map<u64, Seq<char>>, id: u64) -> bool {
    edits.contains_key(id) && entry_at(apps, id) == apps.len()
}

/// The entry made for an application that had none.
pub open spec fn created_entry(id: u64, value: Seq<char>) -> (Seq<char>, KvTree) {
    (decimal(id as nat), edited_entry(KvTree::Section(Seq::empty()), value))
}

/// The entries made for the applications below `bound` that had none, by
/// rising identifier.
pub open spec fn created_below(apps: Entries, edits: Map<u64, Seq<char>>, bound: nat) -> Entries
    decreases bound,
{
    if bound == 0 {
        Seq::empty()
    } else {
        let before = created_below(apps, edits, (bound - 1) as nat);
        let id = (bound - 1) as u64;
        if bound - 1 <= u64::MAX && creates(apps, edits, id) {
            before.push(created_entry(id, edits[id]))
        } else {
            before
        }
    }
}

/// The collection after the edits of the applications below `bound`.
pub open spec fn merged_below(apps: Entries, edits: Map<u64, Seq<char>>, bound: nat) -> Entries {
    edited_below(apps, edits, bound) + created_below(apps, edits, bound)
}

/// The collection after all of `edits`: every entry stays where it is, the
/// entry of an edited application is edited, and the applications that had no
/// entry get one at the end, by rising identifier.
pub open spec fn merged(apps: Entries, edits: Map<u64, Seq<char>>) -> Entries {
    merged_below(apps, edits, 0x1_0000_0000_0000_0000)
}

/// Finds the entry of application `id`; the result is the number of entries
/// where there is none.
pub fn find_app(apps: &Vec<(String, KvNode)>, id: u64) -> (at: usize)
    ensures
        at == entry_at(entries_view(apps@), id),
{
    let mut i: usize = 0;
    while i < apps.len()
        invariant
            i <= apps.len(),
            forall|j: int| 0 <= j < i ==> parse_id(apps@[j].0@) != Some(id),
        decreases apps.len() - i,
    {
        if id_of(apps[i].0.as_str()) == Some(id) {
            proof {
                lemma_first_match_is(entries_view(apps@), names(id), i as int);
            }
            return i;
        }
        i += 1;
    }
    proof {
        lemma_first_match_is(entries_view(apps@), names(id), i as int);
    }
    i
}

/// Reads the launch options that an entry holds.
pub fn launch_options(entry: &KvNode) -> (text: String)
    ensures
        text@ == launch_options_of(entry@),
{
    match entry.get_scalar("LaunchOptions") {
        Some(text) => text.clone(),
        None => String::new(),
    }
}

/// Reads the launch options of every application out of the collection of
/// entries. An identifier is any number up to `u64::MAX`; a child whose key
/// spells none is passed over, and of several children that spell the same
/// identifier the first counts.
pub fn extract(apps: &Vec<(String, KvNode)>) -> (options: BTreeMap<u64, String>)
    ensures
        texts(options@) == extracted(entries_view(apps@)),
{
    let ghost all = entries_view(apps@);
    let mut options: BTreeMap<u64, String> = BTreeMap::new();
    let mut i: usize = 0;
    assert(texts(options@) =~= extracted(all.take(0))) by {
        assert forall|id: u64| !extracted(all.take(0)).contains_key(id) by {
            lemma_first_match(all.take(0), names(id));
        }
    }
    while i < apps.len()
        invariant
            i <= apps.len(),
            all == entries_view(apps@),
            texts(options@) == extracted(all.take(i as int)),
        decreases apps.len() - i,
    {
        let ghost before = all.take(i as int);
        let ghost after = all.take(i + 1);
        let ghost old_options = options@;
        let found = id_of(apps[i].0.as_str());
        if let Some(id) = found {
            if !contains_wide_id(&options, id) {
                let text = launch_options(&apps[i].1);
                put_wide(&mut options, id, text);
            }
        }
        proof {
            assert(after[i as int] == all[i as int]);
            assert(found == parse_id(after[i as int].0));
            assert forall|j: int| 0 <= j < before.len() implies #[trigger] after[j]
                == before[j] by {}
            assert forall|id: u64|
                #![trigger extracted(after).dom().contains(id)]
                #![trigger texts(options@).dom().contains(id)]
                texts(options@).dom().contains(id) == extracted(after).dom().contains(id) && (
                extracted(after).dom().contains(id) ==> extracted(after)[id] == texts(
                    options@,
                )[id]) by {
                lemma_first_match(before, names(id));
                let at = entry_at(before, id);
                assert(texts(old_options).contains_key(id) == extracted(before).contains_key(id));
                assert(old_options.contains_key(id) == (at < before.len()));
                if at < before.len() {
                    lemma_first_match_is(after, names(id), at);
                    assert(extracted(before)[id] == texts(old_options)[id]);
                    assert(options@.contains_key(id) && options@[id] == old_options[id]);
                } else if found == Some(id) {
                    lemma_first_match_is(after, names(id), i as int);
                    assert(options@.contains_key(id));
                    assert(options@[id]@ == launch_options_of(apps@[i as int].1@));
                } else {
                    lemma_first_match_is(after, names(id), after.len() as int);
                    assert(!options@.contains_key(id));
                }
            }
            assert(texts(options@) =~= extracted(after));
        }
        i += 1;
    }
    assert(all.take(i as int) =~= all);
    options
}

/// Sets the launch options of an entry: clears them where `value` is blank,
/// else writes `value`.
pub fn edit_entry(entry: &KvNode, value: &String) -> (edited: KvNode)
    ensures
        edited@ == edited_entry(entry@, value@),
{
    let none: Vec<(String, KvNode)> = Vec::new();
    let children = match entry {
        KvNode::Section(entries) => entries,
        KvNode::Scalar(_) => &none,
    };
    proof {
        lemma_section_view(*children);
        assert(entries_view(children@) =~= entry@.children());
    }
    let ghost old = entries_view(children@);
    if blank(value.as_str()) {
        let mut kept: Vec<(String, KvNode)> = Vec::new();
        let key = String::from_str("LaunchOptions");
        let mut i: usize = 0;
        proof {
            reveal(Seq::filter);
            assert(old.take(0).filter(not_keyed(option_key())) =~= entries_view(kept@));
        }
        while i < children.len()
            invariant
                i <= children.len(),
                old == entries_view(children@),
                key@ == option_key(),
                entries_view(kept@) == old.take(i as int).filter(not_keyed(option_key())),
            decreases children.len() - i,
        {
            let ghost before = entries_view(kept@);
            if children[i].0 != key {
                kept.push((children[i].0.clone(), children[i].1.clone()));
            }
            proof {
                reveal(Seq::filter);
                assert(old.take(i + 1).drop_last() =~= old.take(i as int));
                if children@[i as int].0@ != key@ {
                    assert(entries_view(kept@) =~= before.push(old[i as int]));
                } else {
                    assert(entries_view(kept@) =~= before);
                }
            }
            i += 1;
        }
        proof {
            assert(old.take(i as int) =~= old);
            lemma_section_view(kept);
        }
        KvNode::Section(kept)
    } else {
        let at = find_key(children, "LaunchOptions");
        let mut copies = clone_entries(children);
        let key = String::from_str("LaunchOptions");
        assert(copies@.len() == children@.len()) by {
            assert(entries_view(copies@).len() == entries_view(children@).len());
        }
        let ghost before = entries_view(copies@);
        if at < copies.len() {
            copies.set(at, (key, KvNode::Scalar(value.clone())));
            assert(entries_view(copies@) =~= before.update(
                at as int,
                (option_key(), KvTree::Scalar(value@)),
            ));
        } else {
            copies.push((key, KvNode::Scalar(value.clone())));
            assert(entries_view(copies@) =~= before.push((option_key(), KvTree::Scalar(value@))));
        }
        proof {
            lemma_section_view(copies);
        }
        KvNode::Section(copies)
    }
}

/// Edits of applications that `edits` does not speak of change nothing: with
/// no edit from `low` up to `high`, the two bounds give the same collection.
pub proof fn lemma_merged_gap(apps: Entries, edits: Map<u64, Seq<char>>, low: nat, high: nat)
    requires
        low <= high,
        forall|id: u64| low <= id < high ==> !edits.contains_key(id),
    ensures
        merged_below(apps, edits, high) == merged_below(apps, edits, low),
    decreases high - low,
{
    if low < high {
        lemma_merged_gap(apps, edits, low, (high - 1) as nat);
        if high - 1 <= u64::MAX {
            assert(!edits.contains_key((high - 1) as u64));
        }
        assert(created_below(apps, edits, high) == created_below(apps, edits, (high - 1) as nat));
        assert(edited_below(apps, edits, high) =~= edited_below(apps, edits, (high - 1) as nat));
    }
}

/// What the edit of one application adds to the edits of those below it: its
/// entry is edited in place, or made at the end where it had none.
pub proof fn lemma_merged_step(apps: Entries, edits: Map<u64, Seq<char>>, id: u64)
    requires
        edits.contains_key(id),
    ensures
        entry_at(apps, id) < apps.len() ==> merged_below(apps, edits, (id + 1) as nat)
            == merged_below(apps, edits, id as nat).update(
            entry_at(apps, id),
            (apps[entry_at(apps, id)].0, edited_entry(apps[entry_at(apps, id)].1, edits[id])),
        ),
        entry_at(apps, id) >= apps.len() ==> merged_below(apps, edits, (id + 1) as nat)
            == merged_below(apps, edits, id as nat).push(created_entry(id, edits[id])),
{
    let at = entry_at(apps, id);
    let below = id as nat;
    let above = (id + 1) as nat;
    lemma_first_match(apps, names(id));
    assert(created_below(apps, edits, above) == if creates(apps, edits, id) {
        created_below(apps, edits, below).push(created_entry(id, edits[id]))
    } else {
        created_below(apps, edits, below)
    });
    if at < apps.len() {
        let entry = (apps[at].0, edited_entry(apps[at].1, edits[id]));
        assert(edited_below(apps, edits, above) =~= edited_below(apps, edits, below).update(
            at,
            entry,
        ));
        assert(merged_below(apps, edits, above) =~= merged_below(apps, edits, below).update(
            at,
            entry,
        ));
    } else {
        assert(edited_below(apps, edits, above) =~= edited_below(apps, edits, below));
        assert(merged_below(apps, edits, above) =~= merged_below(apps, edits, below).push(
            created_entry(id, edits[id]),
        ));
    }
}

/// Merges edited launch options into the collection of entries.
///
/// For each application in `edits`, its entry is the first whose key spells
/// its identifier; where there is none, one is added at the end under the
/// decimal key. A blank text removes every `LaunchOptions` child of the
/// entry, any other text becomes its first `LaunchOptions` child. Nothing
/// else changes.
pub fn merge(apps: &Vec<(String, KvNode)>, edits: &BTreeMap<u64, String>) -> (result: Vec<
    (String, KvNode),
>)
    ensures
        entries_view(result@) == merged(entries_view(apps@), texts(edits@)),
{
    let pairs = ascending_wide(edits);
    let mut result = clone_entries(apps);
    let ghost old = entries_view(apps@);
    let ghost wanted = texts(edits@);
    let mut k: usize = 0;
    proof {
        assert(entries_view(result@) =~= merged_below(old, wanted, 0));
    }
    while k < pairs.len()
        invariant
            k <= pairs.len(),
            lists(pairs@, edits@),
            old == entries_view(apps@),
            wanted == texts(edits@),
            entries_view(result@) == merged_below(old, wanted, passed(pairs@, k as int)),
        decreases pairs.len() - k,
    {
        let id = *pairs[k].0;
        let value: &String = pairs[k].1;
        let at = find_app(apps, id);
        let ghost before = entries_view(result@);
        proof {
            lemma_next_pair(pairs@, edits@, k as int);
            assert(wanted.contains_key(id) && wanted[id] == value@);
            assert forall|other: u64| passed(pairs@, k as int) <= other < id implies
                !wanted.contains_key(other) by {
                assert(wanted.contains_key(other) == edits@.contains_key(other));
            }
            lemma_merged_gap(old, wanted, passed(pairs@, k as int), id as nat);
            lemma_merged_step(old, wanted, id);
            assert(before.len() >= old.len());
        }
        if at < apps.len() {
            let edited = edit_entry(&apps[at].1, value);
            result.set(at, (apps[at].0.clone(), edited));
            assert(entries_view(result@) =~= before.update(
                at as int,
                (old[at as int].0, edited_entry(old[at as int].1, wanted[id])),
            ));
        } else {
            let none: Vec<(String, KvNode)> = Vec::new();
            proof {
                lemma_section_view(none);
                assert(entries_view(none@) =~= Seq::empty());
            }
            let fresh = KvNode::Section(none);
            let edited = edit_entry(&fresh, value);
            result.push((id_text(id), edited));
            assert(entries_view(result@) =~= before.push(created_entry(id, wanted[id])));
        }
        k += 1;
    }
    proof {
        lemma_all_passed(pairs@, edits@);
        assert forall|other: u64| passed(pairs@, k as int) <= other < 0x1_0000_0000_0000_0000 implies
            !wanted.contains_key(other) by {
            assert(wanted.contains_key(other) == edits@.contains_key(other));
        }
        lemma_merged_gap(old, wanted, passed(pairs@, k as int), 0x1_0000_0000_0000_0000);
    }
    result
}

/// The number of entries made for applications below `id`: the place, among
/// the entries made, of the entry of `id`.
pub open spec fn created_rank(apps: Entries, edits: Map<u64, Seq<char>>, id: nat) -> nat {
    created_below(apps, edits, id).len()
}

/// Every entry made is the entry of an application that `edits` speaks of
/// and that had none, and stands at that application's rank.
pub proof fn lemma_created_entries(apps: Entries, edits: Map<u64, Seq<char>>, bound: nat, j: int)
    requires
        0 <= j < created_below(apps, edits, bound).len(),
    ensures
        ({
            let made = created_below(apps, edits, bound)[j];
            &&& parse_id(made.0) matches Some(id)
            &&& id < bound
            &&& creates(apps, edits, id)
            &&& made == created_entry(id, edits[id])
            &&& created_rank(apps, edits, id as nat) == j
        }),
    decreases bound,
{
    let before = created_below(apps, edits, (bound - 1) as nat);
    if j < before.len() {
        lemma_created_entries(apps, edits, (bound - 1) as nat, j);
    } else {
        lemma_parse_decimal((bound - 1) as u64);
    }
}

/// An application below the bound that `edits` speaks of and that had no
/// entry has its entry made at its rank.
pub proof fn lemma_created_at_rank(apps: Entries, edits: Map<u64, Seq<char>>, bound: nat, id: u64)
    requires
        id < bound,
        creates(apps, edits, id),
    ensures
        created_rank(apps, edits, id as nat) < created_below(apps, edits, bound).len(),
        created_below(apps, edits, bound)[created_rank(apps, edits, id as nat) as int]
            == created_entry(id, edits[id]),
    decreases bound,
{
    if bound - 1 > id {
        lemma_created_at_rank(apps, edits, (bound - 1) as nat, id);
    }
}

/// The entry of an application before its edit; an application without an
/// entry counts as having an empty one.
pub open spec fn entry_or_empty(apps: Entries, id: u64) -> KvTree {
    match entry_of(apps, id) {
        Some(entry) => entry,
        None => KvTree::Section(Seq::empty()),
    }
}

/// After a merge the entry of an application is its old entry edited, where
/// `edits` speaks of the application, and its old entry as it was, where it
/// does not. An entry that was there stays at its index.
pub proof fn lemma_merged_entry(apps: Entries, edits: Map<u64, Seq<char>>, id: u64)
    ensures
        entry_of(merged(apps, edits), id) == if edits.contains_key(id) {
            Some(edited_entry(entry_or_empty(apps, id), edits[id]))
        } else {
            entry_of(apps, id)
        },
        entry_at(apps, id) < apps.len() ==> entry_at(merged(apps, edits), id) == entry_at(apps, id),
        entry_at(apps, id) >= apps.len() && edits.contains_key(id) ==> {
            &&& entry_at(merged(apps, edits), id) < merged(apps, edits).len()
            &&& merged(apps, edits)[entry_at(merged(apps, edits), id)] == created_entry(
                id,
                edits[id],
            )
        },
{
    let all: nat = 0x1_0000_0000_0000_0000;
    let after = merged(apps, edits);
    let made = created_below(apps, edits, all);
    let at = entry_at(apps, id);
    lemma_first_match(apps, names(id));
    assert forall|j: int| 0 <= j < apps.len() implies (#[trigger] after[j]).0 == apps[j].0 by {}
    if at < apps.len() {
        lemma_first_match_is(after, names(id), at);
    } else if edits.contains_key(id) {
        let rank = created_rank(apps, edits, id as nat) as int;
        lemma_created_at_rank(apps, edits, all, id);
        lemma_parse_decimal(id);
        assert(after[apps.len() + rank] == made[rank]);
        assert forall|j: int| 0 <= j < apps.len() + rank implies !names(id)(
            (#[trigger] after[j]).0,
        ) by {
            if j >= apps.len() {
                assert(after[j] == made[j - apps.len()]);
                lemma_created_entries(apps, edits, all, j - apps.len());
            }
        }
        lemma_first_match_is(after, names(id), apps.len() + rank);
    } else {
        assert forall|j: int| 0 <= j < after.len() implies !names(id)((#[trigger] after[j]).0) by {
            if j >= apps.len() {
                assert(after[j] == made[j - apps.len()]);
                lemma_created_entries(apps, edits, all, j - apps.len());
            }
        }
        lemma_first_match_is(after, names(id), after.len() as int);
    }
}

/// An edited entry holds the edit's text as its launch options, or none
/// where that text is blank; its children under other keys are the first
/// children under those keys as before.
pub proof fn lemma_edited_entry(entry: KvTree, value: Seq<char>)
    ensures
        launch_options_of(edited_entry(entry, value)) == normal(value),
        is_blank(value) ==> edited_entry(entry, value).child(option_key()) is None,
        !is_blank(value) ==> edited_entry(entry, value).child(option_key()) == Some(
            KvTree::Scalar(value),
        ),
        forall|other: Seq<char>|
            other != option_key() ==> #[trigger] edited_entry(entry, value).child(other)
                == KvTree::Section(entry.children()).child(other),
{
    crate::node::lemma_without_key(entry.children(), option_key());
    crate::node::lemma_with_child(entry.children(), option_key(), KvTree::Scalar(value));
}

/// `base` with the entries of `edits` laid over it, each as an edit leaves
/// it.
pub open spec fn overlaid(base: Map<u64, Seq<char>>, edits: Map<u64, Seq<char>>) -> Map<
    u64,
    Seq<char>,
> {
    Map::new(
        |id: u64| base.contains_key(id) || edits.contains_key(id),
        |id: u64|
            if edits.contains_key(id) {
                normal(edits[id])
            } else {
                base[id]
            },
    )
}

/// Reading after merging gives what was read before with the edits laid over
/// it: every edited application shows its new text (none where that text was
/// blank), every other application what it showed before.
pub proof fn lemma_extract_after_merge(apps: Entries, edits: Map<u64, Seq<char>>)
    ensures
        extracted(merged(apps, edits)) == overlaid(extracted(apps), edits),
{
    let after = merged(apps, edits);
    assert forall|id: u64|
        #![trigger extracted(after).dom().contains(id)]
        #![trigger overlaid(extracted(apps), edits).dom().contains(id)]
        extracted(after).dom().contains(id) == overlaid(extracted(apps), edits).dom().contains(id)
            && (extracted(after).dom().contains(id) ==> extracted(after)[id] == overlaid(
            extracted(apps),
            edits,
        )[id]) by {
        lemma_merged_entry(apps, edits, id);
        if edits.contains_key(id) {
            lemma_edited_entry(entry_or_empty(apps, id), edits[id]);
        }
    }
    assert(extracted(after) =~= overlaid(extracted(apps), edits));
}

/// Merging what was just read changes no launch options: as long as no
/// application holds a text that is blank without being empty, every entry
/// keeps its key and its launch options, no entry is added, and reading
/// again gives the same map.
pub proof fn lemma_merge_of_extract(apps: Entries)
    requires
        forall|id: u64|
            extracted(apps).contains_key(id) && is_blank(#[trigger] extracted(apps)[id])
                ==> extracted(apps)[id].len() == 0,
    ensures
        merged(apps, extracted(apps)).len() == apps.len(),
        forall|i: int|
            0 <= i < apps.len() ==> (#[trigger] merged(apps, extracted(apps))[i]).0 == apps[i].0
                && launch_options_of(merged(apps, extracted(apps))[i].1) == launch_options_of(
                apps[i].1,
            ),
        extracted(merged(apps, extracted(apps))) == extracted(apps),
{
    let edits = extracted(apps);
    let all: nat = 0x1_0000_0000_0000_0000;
    let after = merged(apps, edits);
    let made = created_below(apps, edits, all);
    if made.len() > 0 {
        lemma_created_entries(apps, edits, all, 0);
    }
    assert forall|i: int| 0 <= i < apps.len() implies (#[trigger] after[i]).0 == apps[i].0
        && launch_options_of(after[i].1) == launch_options_of(apps[i].1) by {
        if is_edited(apps, edits, all, i) {
            let id = parse_id(apps[i].0).unwrap();
            lemma_edited_entry(apps[i].1, edits[id]);
            assert(edits[id] == launch_options_of(apps[i].1));
            assert(normal(edits[id]) =~= edits[id]);
        }
    }
    lemma_extract_after_merge(apps, edits);
    assert forall|id: u64| edits.contains_key(id) implies normal(#[trigger] edits[id])
        == edits[id] by {
        assert(normal(edits[id]) =~= edits[id]);
    }
    assert(overlaid(edits, edits) =~= edits);
}

/// An edit with a blank text leaves the application's entry without any
/// `LaunchOptions` child, whatever it held before, and leaves the entry's
/// other children as they were, in their order.
pub proof fn lemma_blank_edit_clears(apps: Entries, edits: Map<u64, Seq<char>>, id: u64)
    requires
        edits.contains_key(id),
        is_blank(edits[id]),
    ensures
        entry_of(merged(apps, edits), id) == Some(
            KvTree::Section(without_key(entry_or_empty(apps, id).children(), option_key())),
        ),
        entry_of(merged(apps, edits), id).unwrap().child(option_key()) is None,
        forall|other: Seq<char>|
            other != option_key() ==> #[trigger] entry_of(merged(apps, edits), id).unwrap().child(
                other,
            ) == KvTree::Section(entry_or_empty(apps, id).children()).child(other),
{
    lemma_merged_entry(apps, edits, id);
    lemma_edited_entry(entry_or_empty(apps, id), edits[id]);
}

/// An edit with a text that is not blank, for an application without an
/// entry, makes an entry under the decimal key that holds that text as its
/// launch options and nothing else.
pub proof fn lemma_edit_creates_entry(apps: Entries, edits: Map<u64, Seq<char>>, id: u64)
    requires
        edits.contains_key(id),
        !is_blank(edits[id]),
        entry_of(apps, id) is None,
    ensures
        entry_at(merged(apps, edits), id) < merged(apps, edits).len(),
        merged(apps, edits)[entry_at(merged(apps, edits), id)] == (
            decimal(id as nat),
            KvTree::Section(seq![(option_key(), KvTree::Scalar(edits[id]))]),
        ),
{
    lemma_merged_entry(apps, edits, id);
    let none = Seq::<(Seq<char>, KvTree)>::empty();
    lemma_first_match(none, by_key(option_key()));
    assert(with_child(none, option_key(), KvTree::Scalar(edits[id])) =~= seq![
        (option_key(), KvTree::Scalar(edits[id])),
    ]);
}

/// A merge without edits changes nothing.
pub proof fn lemma_merge_nothing(apps: Entries)
    ensures
        merged(apps, Map::empty()) == apps,
{
    let none = Map::<u64, Seq<char>>::empty();
    lemma_merged_gap(apps, none, 0, 0x1_0000_0000_0000_0000);
    assert(merged_below(apps, none, 0) =~= apps);
}

/// A merge keeps every entry at its index under its key, and changes only
/// the entry that is the first to spell an application that `edits` speaks
/// of: an entry whose key spells no identifier, or the identifier of an
/// application that `edits` does not speak of, or that has another entry
/// before it for the same application, is after the merge what it was.
pub proof fn lemma_merge_leaves_others(apps: Entries, edits: Map<u64, Seq<char>>, i: int)
    requires
        0 <= i < apps.len(),
    ensures
        merged(apps, edits).len() >= apps.len(),
        merged(apps, edits)[i].0 == apps[i].0,
        !is_edited(apps, edits, 0x1_0000_0000_0000_0000, i) ==> merged(apps, edits)[i] == apps[i],
{
}

} // verus!
