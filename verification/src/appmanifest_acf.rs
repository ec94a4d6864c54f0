//! Application manifests: one small document for each installed
//! application, of which the library reads the application's name.

use crate::app_id::{app_id_of, parse_app_id};
use crate::codec::{body_of, decode, decoded, document_body};
use crate::error::VdfError;
use crate::id_map::{put, texts};
use std::collections::BTreeMap;
use vstd::prelude::*;

verus! {

/// The name of the file that holds the manifest of the application keyed
/// `appid`.
pub open spec fn manifest_name(appid: Seq<char>) -> Seq<char> {
    "appmanifest_"@ + appid + ".acf"@
}

/// The name of the file that holds the manifest of the application keyed
/// `appid`.
pub fn manifest_file_name(appid: &str) -> (name: String)
    ensures
        name@ == manifest_name(appid@),
{
    let mut name = String::from_str("appmanifest_");
    name.append(appid);
    name.append(".acf");
    name
}

/// The name that the text of a manifest gives its application: the scalar
/// `name` in the body of the document.
pub open spec fn app_name_in(contents: Seq<char>) -> Result<Seq<char>, VdfError> {
    match decoded(contents) {
        None => Err(VdfError::Parse),
        Some(document) => match document_body(document) {
            None => Err(VdfError::Schema),
            Some(body) => match body.scalar("name"@) {
                Some(name) => Ok(name),
                None => Err(VdfError::Schema),
            },
        },
    }
}

/// Reads the name of the application out of the text of its manifest.
pub fn app_name(contents: &str) -> (name: Result<String, VdfError>)
    ensures
        match name {
            Ok(text) => app_name_in(contents@) == Ok::<Seq<char>, VdfError>(text@),
            Err(error) => app_name_in(contents@) == Err::<Seq<char>, VdfError>(error),
        },
{
    match decode(contents) {
        Err(_) => Err(VdfError::Parse),
        Ok(document) => match body_of(&document) {
            None => Err(VdfError::Schema),
            Some(body) => match body.get_scalar("name") {
                Some(name) => Ok(name.clone()),
                None => Err(VdfError::Schema),
            },
        },
    }
}

/// A list of manifests as it is held in memory, taken as its value: for
/// each application its key and the text of its manifest, `None` where the
/// manifest could not be read.
pub open spec fn manifests_view(manifests: Seq<(String, Option<String>)>) -> Seq<
    (Seq<char>, Option<Seq<char>>),
> {
    Seq::new(
        manifests.len(),
        |i: int|
            (
                manifests[i].0@,
                match manifests[i].1 {
                    Some(text) => Some(text@),
                    None => None,
                },
            ),
    )
}

/// The names of the applications whose manifests are listed. A manifest
/// that could not be read is passed over, and so is one of an application
/// whose key spells no identifier; of two manifests for one application the
/// later counts. The first manifest whose text cannot be used fails the
/// whole.
pub open spec fn app_names_in(manifests: Seq<(Seq<char>, Option<Seq<char>>)>) -> Result<
    Map<u32, Seq<char>>,
    VdfError,
>
    decreases manifests.len(),
{
    if manifests.len() == 0 {
        Ok(Map::empty())
    } else {
        match app_names_in(manifests.drop_last()) {
            Err(error) => Err(error),
            Ok(names) => match manifests.last().1 {
                None => Ok(names),
                Some(contents) => match app_name_in(contents) {
                    Err(error) => Err(error),
                    Ok(name) => match parse_app_id(manifests.last().0) {
                        Some(id) => Ok(names.insert(id, name)),
                        None => Ok(names),
                    },
                },
            },
        }
    }
}

/// Reads the names of the installed applications out of their manifests:
/// `manifests` holds, for each application, its key and the text of its
/// manifest, or `None` where the manifest could not be read.
pub fn read_app_names(manifests: &Vec<(String, Option<String>)>) -> (names: Result<
    BTreeMap<u32, String>,
    VdfError,
>)
    ensures
        match names {
            Ok(map) => app_names_in(manifests_view(manifests@)) == Ok::<
                Map<u32, Seq<char>>,
                VdfError,
            >(texts(map@)),
            Err(error) => app_names_in(manifests_view(manifests@)) == Err::<
                Map<u32, Seq<char>>,
                VdfError,
            >(error),
        },
{
    let ghost all = manifests_view(manifests@);
    let mut result: BTreeMap<u32, String> = BTreeMap::new();
    let mut i: usize = 0;
    assert(texts(result@) =~= Map::<u32, Seq<char>>::empty());
    while i < manifests.len()
        invariant
            i <= manifests.len(),
            all == manifests_view(manifests@),
            app_names_in(all.take(i as int)) == Ok::<Map<u32, Seq<char>>, VdfError>(
                texts(result@),
            ),
        decreases manifests.len() - i,
    {
        let ghost before = texts(result@);
        assert(all.take(i + 1).drop_last() =~= all.take(i as int));
        assert(all.take(i + 1).last() == all[i as int]);
        match &manifests[i].1 {
            None => {},
            Some(contents) => match app_name(contents.as_str()) {
                Err(error) => {
                    proof {
                        lemma_failure_stays(all, i + 1);
                    }
                    return Err(error);
                },
                Ok(name) => {
                    if let Some(id) = app_id_of(manifests[i].0.as_str()) {
                        put(&mut result, id, name);
                        assert(texts(result@) =~= before.insert(id, name@));
                    }
                },
            },
        }
        i += 1;
    }
    assert(all.take(i as int) =~= all);
    Ok(result)
}

/// Once the manifests up to some point have failed, the whole list fails in
/// the same way.
proof fn lemma_failure_stays(manifests: Seq<(Seq<char>, Option<Seq<char>>)>, upto: int)
    requires
        0 <= upto <= manifests.len(),
        app_names_in(manifests.take(upto)) is Err,
    ensures
        app_names_in(manifests) == app_names_in(manifests.take(upto)),
    decreases manifests.len() - upto,
{
    if upto < manifests.len() {
        assert(manifests.take(upto + 1).drop_last() =~= manifests.take(upto));
        lemma_failure_stays(manifests, upto + 1);
    } else {
        assert(manifests.take(upto) =~= manifests);
    }
}

} // verus!
