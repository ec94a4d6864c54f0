//! The user's local configuration document: where it keeps the collection of
//! per-application entries, and the reading and writing of launch options
//! through it.

use crate::codec::{body_of, decode, decoded, document_body, encode, encoded};
use crate::error::VdfError;
use crate::id_map::{
    ascending, ascending_wide, lemma_all_passed, lemma_next_pair, lists, passed, put, put_wide,
    texts,
};
use crate::launch_options::{
    extract, extracted, is_edited, lemma_extract_after_merge, lemma_merge_leaves_others,
    lemma_merge_nothing, merge, merged, overlaid,
};
use crate::node::{entries_view, lemma_section_view, Entries, KvNode, KvTree};
use crate::path::{
    find_section, lemma_found_is_section, lemma_replaced_by_same, lemma_replaced_is_found,
    replace_section, replaced_at,
    section_at,
};
use crate::text::strings_view;
use std::collections::BTreeMap;
use vstd::prelude::*;

verus! {

/// The key under which the document is written.
pub open spec fn root_key() -> Seq<char> {
    "UserLocalConfigStore"@
}

/// The chain of sections that leads from the document's body to the
/// collection of per-application entries.
pub open spec fn apps_path() -> Seq<Seq<char>> {
    seq!["Software"@, "Valve"@, "Steam"@, "apps"@]
}

/// The per-application entries of a document, where it has the chain of
/// sections that leads to them.
pub open spec fn apps_of(document: KvTree) -> Option<Entries> {
    match document_body(document) {
        Some(body) => match section_at(body, apps_path()) {
            Some(apps) => Some(apps.children()),
            None => None,
        },
        None => None,
    }
}

/// The body of a document with `apps` as its per-application entries and
/// every other branch as it is.
pub open spec fn body_with_apps(document: KvTree, apps: Entries) -> KvTree {
    replaced_at(document_body(document).unwrap(), apps_path(), KvTree::Section(apps))
}

/// The body of a document after the launch options in `edits` were merged
/// into its per-application entries.
pub open spec fn body_with_edits(document: KvTree, edits: Map<u64, Seq<char>>) -> KvTree {
    body_with_apps(document, merged(apps_of(document).unwrap(), edits))
}

/// A document whose body was given other per-application entries has those
/// entries where the chain of sections leads.
pub proof fn lemma_body_with_apps(document: KvTree, apps: Entries)
    requires
        apps_of(document) is Some,
    ensures
        section_at(body_with_apps(document, apps), apps_path()) == Some(KvTree::Section(apps)),
{
    lemma_replaced_is_found(document_body(document).unwrap(), apps_path(), KvTree::Section(apps));
}

/// A document written anew with edited launch options, and read again as
/// the tree that was written: its per-application entries are the old ones
/// with the edits merged in, and its launch options are the old ones with
/// the edits laid over them. This holds under whichever root key the body
/// is written.
pub proof fn lemma_written_shows_edits(
    document: KvTree,
    edits: Map<u64, Seq<char>>,
    key: Seq<char>,
)
    requires
        apps_of(document) is Some,
    ensures
        apps_of(KvTree::Section(seq![(key, body_with_edits(document, edits))])) == Some(
            merged(apps_of(document).unwrap(), edits),
        ),
        extracted(merged(apps_of(document).unwrap(), edits)) == overlaid(
            extracted(apps_of(document).unwrap()),
            edits,
        ),
{
    let apps = apps_of(document).unwrap();
    lemma_body_with_apps(document, merged(apps, edits));
    lemma_extract_after_merge(apps, edits);
    let body = body_with_edits(document, edits);
    assert(body is Section);
    let written = KvTree::Section(seq![(key, body)]);
    assert(written.children()[0].1 == body);
}

/// Writing a document anew without edits encodes the very body that was
/// decoded.
pub proof fn lemma_written_without_edits(document: KvTree)
    requires
        apps_of(document) is Some,
    ensures
        body_with_edits(document, Map::empty()) == document_body(document).unwrap(),
{
    let body = document_body(document).unwrap();
    lemma_merge_nothing(apps_of(document).unwrap());
    lemma_found_is_section(body, apps_path());
    lemma_replaced_by_same(body, apps_path());
}

/// Writing a document anew with edited launch options leaves every entry
/// that the edits do not change as it is and where it is: an entry whose
/// key spells no identifier, or the identifier of an application that the
/// edits do not speak of, or that is not the first entry of its
/// application, is in the written tree what it was in the old one.
pub proof fn lemma_written_keeps_entry(
    document: KvTree,
    edits: Map<u64, Seq<char>>,
    key: Seq<char>,
    i: int,
)
    requires
        apps_of(document) is Some,
        0 <= i < apps_of(document).unwrap().len(),
        !is_edited(apps_of(document).unwrap(), edits, 0x1_0000_0000_0000_0000, i),
    ensures
        apps_of(KvTree::Section(seq![(key, body_with_edits(document, edits))])).unwrap()[i]
            == apps_of(document).unwrap()[i],
        forall|under: Seq<char>|
            encoded(
                under,
                apps_of(KvTree::Section(seq![(key, body_with_edits(document, edits))])).unwrap()[i].1,
            ) == #[trigger] encoded(under, apps_of(document).unwrap()[i].1),
{
    lemma_written_shows_edits(document, edits, key);
    lemma_merge_leaves_others(apps_of(document).unwrap(), edits, i);
}

fn apps_path_keys() -> (path: Vec<String>)
    ensures
        strings_view(path@) == apps_path(),
{
    let mut path: Vec<String> = Vec::new();
    path.push(String::from_str("Software"));
    path.push(String::from_str("Valve"));
    path.push(String::from_str("Steam"));
    path.push(String::from_str("apps"));
    assert(strings_view(path@) =~= apps_path());
    path
}

/// Finds the per-application entries of a document.
pub fn apps_section(document: &KvNode) -> (apps: Result<&Vec<(String, KvNode)>, VdfError>)
    ensures
        match apps {
            Ok(entries) => apps_of(document@) == Some(entries_view(entries@)),
            Err(error) => error == VdfError::Schema && apps_of(document@) is None,
        },
{
    let path = apps_path_keys();
    match body_of(document) {
        None => Err(VdfError::Schema),
        Some(body) => match find_section(body, &path, 0) {
            None => {
                assert(strings_view(path@).skip(0) =~= apps_path());
                Err(VdfError::Schema)
            },
            Some(section) => {
                assert(strings_view(path@).skip(0) =~= apps_path());
                proof {
                    lemma_found_is_section(body@, apps_path());
                }
                match section {
                    KvNode::Section(entries) => {
                        proof {
                            lemma_section_view(*entries);
                            assert(section@.children() == entries_view(entries@));
                        }
                        Ok(entries)
                    },
                    KvNode::Scalar(_) => Err(VdfError::Schema),
                }
            },
        },
    }
}

/// Reads the launch options out of a decoded document: one entry for every
/// number up to `u64::MAX` that the key of some entry spells.
pub fn read(document: &KvNode) -> (options: Result<BTreeMap<u64, String>, VdfError>)
    ensures
        match options {
            Ok(map) => apps_of(document@) matches Some(apps) && texts(map@) == extracted(apps),
            Err(error) => error == VdfError::Schema && apps_of(document@) is None,
        },
{
    match apps_section(document) {
        Ok(apps) => Ok(extract(apps)),
        Err(error) => Err(error),
    }
}

/// Writes a document anew with `updated_apps` as its per-application
/// entries: they take the place of the old ones, every other branch of
/// `document` stays as it is, and the body is encoded under `root_key`.
pub fn write(document: &KvNode, updated_apps: Vec<(String, KvNode)>, root_key: &str) -> (text:
    Result<String, VdfError>)
    ensures
        match text {
            Ok(written) => apps_of(document@) is Some && written@ == encoded(
                root_key@,
                body_with_apps(document@, entries_view(updated_apps@)),
            ),
            Err(error) => error == VdfError::Schema && apps_of(document@) is None,
        },
{
    let path = apps_path_keys();
    assert(strings_view(path@).skip(0) =~= apps_path());
    proof {
        lemma_section_view(updated_apps);
    }
    match body_of(document) {
        None => Err(VdfError::Schema),
        Some(body) => match replace_section(body, &path, 0, KvNode::Section(updated_apps)) {
            None => Err(VdfError::Schema),
            Some(new_body) => Ok(encode(&new_body, root_key)),
        },
    }
}

/// The entries of a map of wide identifiers whose identifier is that of
/// an application, each under that identifier.
pub open spec fn narrowed(wide: Map<u64, Seq<char>>) -> Map<u32, Seq<char>> {
    Map::new(|id: u32| wide.contains_key(id as u64), |id: u32| wide[id as u64])
}

/// The entries of a map of application identifiers, each under its
/// identifier as a wide one.
pub open spec fn widened(narrow: Map<u32, Seq<char>>) -> Map<u64, Seq<char>> {
    Map::new(
        |id: u64| id <= u32::MAX && narrow.contains_key(id as u32),
        |id: u64| narrow[id as u32],
    )
}

/// Keeps the entries whose identifier is that of an application.
pub fn narrow(wide: &BTreeMap<u64, String>) -> (kept: BTreeMap<u32, String>)
    ensures
        texts(kept@) == narrowed(texts(wide@)),
{
    let pairs = ascending_wide(wide);
    let mut kept: BTreeMap<u32, String> = BTreeMap::new();
    let mut k: usize = 0;
    while k < pairs.len()
        invariant
            k <= pairs.len(),
            lists(pairs@, wide@),
            forall|id: u32|
                #[trigger] kept@.contains_key(id) <==> wide@.contains_key(id as u64) && id
                    < passed(pairs@, k as int),
            forall|id: u32| kept@.contains_key(id) ==> (#[trigger] kept@[id])@ == wide@[id as u64]@,
        decreases pairs.len() - k,
    {
        let id = *pairs[k].0;
        proof {
            lemma_next_pair(pairs@, wide@, k as int);
        }
        if id <= 0xffff_ffff {
            put(&mut kept, id as u32, pairs[k].1.clone());
        }
        k += 1;
    }
    proof {
        lemma_all_passed(pairs@, wide@);
        assert(texts(kept@) =~= narrowed(texts(wide@)));
    }
    kept
}

/// Gives every entry its identifier as a wide one.
pub fn widen(narrow: &BTreeMap<u32, String>) -> (wide: BTreeMap<u64, String>)
    ensures
        texts(wide@) == widened(texts(narrow@)),
{
    let pairs = ascending(narrow);
    let mut wide: BTreeMap<u64, String> = BTreeMap::new();
    let mut k: usize = 0;
    while k < pairs.len()
        invariant
            k <= pairs.len(),
            lists(pairs@, narrow@),
            forall|id: u64|
                #[trigger] wide@.contains_key(id) <==> id <= u32::MAX && narrow@.contains_key(
                    id as u32,
                ) && id < passed(pairs@, k as int),
            forall|id: u64| wide@.contains_key(id) ==> (#[trigger] wide@[id])@ == narrow@[id as u32]@,
        decreases pairs.len() - k,
    {
        let id = *pairs[k].0;
        proof {
            lemma_next_pair(pairs@, narrow@, k as int);
        }
        put_wide(&mut wide, id as u64, pairs[k].1.clone());
        k += 1;
    }
    proof {
        lemma_all_passed(pairs@, narrow@);
        assert(texts(wide@) =~= widened(texts(narrow@)));
    }
    wide
}

/// Reads the launch options of every application out of the text of a
/// document. A key that spells a number too great for an application
/// identifier is passed over.
pub fn read_launch_options(contents: &str) -> (options: Result<BTreeMap<u32, String>, VdfError>)
    ensures
        match options {
            Ok(map) => decoded(contents@) matches Some(document) && apps_of(document) matches Some(
                apps,
            ) && texts(map@) == narrowed(extracted(apps)),
            Err(VdfError::Parse) => decoded(contents@) is None,
            Err(VdfError::Schema) => decoded(contents@) matches Some(document) && apps_of(document)
                is None,
        },
{
    match decode(contents) {
        Ok(document) => match read(&document) {
            Ok(wide) => Ok(narrow(&wide)),
            Err(error) => Err(error),
        },
        Err(_) => Err(VdfError::Parse),
    }
}

/// Merges `all_launch_options` into the document that `contents` holds, and
/// gives the text of the document after that, under the key
/// `UserLocalConfigStore`.
pub fn write_launch_options(contents: &str, all_launch_options: &BTreeMap<u32, String>) -> (text:
    Result<String, VdfError>)
    ensures
        match text {
            Ok(written) => decoded(contents@) matches Some(document) && apps_of(document) is Some
                && written@ == encoded(
                root_key(),
                body_with_edits(document, widened(texts(all_launch_options@))),
            ),
            Err(VdfError::Parse) => decoded(contents@) is None,
            Err(VdfError::Schema) => decoded(contents@) matches Some(document) && apps_of(document)
                is None,
        },
{
    match decode(contents) {
        Err(_) => Err(VdfError::Parse),
        Ok(document) => match apps_section(&document) {
            Err(error) => Err(error),
            Ok(apps) => {
                let merged_apps = merge(apps, &widen(all_launch_options));
                write(&document, merged_apps, "UserLocalConfigStore")
            },
        },
    }
}

} // verus!
