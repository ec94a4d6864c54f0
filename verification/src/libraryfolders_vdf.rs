//! The library-folders document: one section for each place where
//! applications are installed, with the place's path and the applications
//! kept there.

use crate::codec::{body_of, decode, decoded, document_body};
use crate::error::VdfError;
use crate::node::{entries_view, lemma_section_view, Entries, KvNode, KvTree};
use crate::text::strings_view;
use vstd::prelude::*;

verus! {

/// One place where applications are installed.
#[derive(Debug, PartialEq, Eq)]
pub struct LibraryFolder {
    /// The path of the folder.
    pub path: String,
    /// The keys under which the folder lists its applications, in the order
    /// of the decoded tree.
    pub apps: Vec<String>,
}

/// The value of a [`LibraryFolder`].
pub struct FolderView {
    pub path: Seq<char>,
    pub apps: Seq<Seq<char>>,
}

impl View for LibraryFolder {
    type V = FolderView;

    open spec fn view(&self) -> FolderView {
        FolderView { path: self.path@, apps: strings_view(self.apps@) }
    }
}

/// A list of folders, each taken as its value.
pub open spec fn folders_view(folders: Seq<LibraryFolder>) -> Seq<FolderView> {
    Seq::new(folders.len(), |i: int| folders[i]@)
}

/// The keys of a list of children, in order.
pub open spec fn keys_of(entries: Entries) -> Seq<Seq<char>> {
    Seq::new(entries.len(), |i: int| entries[i].0)
}

/// The folder that a section describes: it has to hold a scalar `path` and
/// a section `apps`, whose keys are the folder's applications.
pub open spec fn folder_of(node: KvTree) -> Option<FolderView> {
    match (node.scalar("path"@), node.section("apps"@)) {
        (Some(path), Some(apps)) => Some(FolderView { path, apps: keys_of(apps.children()) }),
        _ => None,
    }
}

/// The folders that a list of children describes, in order; a child that
/// describes none is passed over.
pub open spec fn folders_in(entries: Entries) -> Seq<FolderView>
    decreases entries.len(),
{
    if entries.len() == 0 {
        Seq::empty()
    } else {
        let front = folders_in(entries.drop_last());
        match folder_of(entries.last().1) {
            Some(folder) => front.push(folder),
            None => front,
        }
    }
}

/// The folders of a document.
pub open spec fn library_folders_of(document: KvTree) -> Option<Seq<FolderView>> {
    match document_body(document) {
        Some(body) => Some(folders_in(body.children())),
        None => None,
    }
}

/// The paths of a list of folders, in order.
pub open spec fn paths_of(folders: Seq<FolderView>) -> Seq<Seq<char>> {
    Seq::new(folders.len(), |i: int| folders[i].path)
}

/// The applications of a list of folders, one folder after the other.
pub open spec fn listed_apps(folders: Seq<FolderView>) -> Seq<Seq<char>>
    decreases folders.len(),
{
    if folders.len() == 0 {
        Seq::empty()
    } else {
        listed_apps(folders.drop_last()) + folders.last().apps
    }
}

/// `list` with each text kept where it stands first and dropped where it
/// stands again.
pub open spec fn distinct(list: Seq<Seq<char>>) -> Seq<Seq<char>>
    decreases list.len(),
{
    if list.len() == 0 {
        Seq::empty()
    } else {
        let front = distinct(list.drop_last());
        if front.contains(list.last()) {
            front
        } else {
            front.push(list.last())
        }
    }
}

/// The applications that are installed in any of the folders: the union of
/// what the folders list, each application once, in the order of its first
/// listing.
pub open spec fn installed_apps_of(folders: Seq<FolderView>) -> Seq<Seq<char>> {
    distinct(listed_apps(folders))
}

/// `distinct` holds every text of the list, holds none twice, and holds
/// nothing else.
pub proof fn lemma_distinct(list: Seq<Seq<char>>)
    ensures
        distinct(list).no_duplicates(),
        forall|text: Seq<char>| #[trigger] distinct(list).contains(text) ==> list.contains(text),
        forall|text: Seq<char>| #[trigger] list.contains(text) ==> distinct(list).contains(text),
    decreases list.len(),
{
    if list.len() > 0 {
        let front = list.drop_last();
        lemma_distinct(front);
        let kept = distinct(list);
        assert forall|text: Seq<char>|
            (#[trigger] kept.contains(text) ==> list.contains(text)) && (list.contains(text)
                ==> kept.contains(text)) by {
            if kept.contains(text) {
                let i = choose|i: int| 0 <= i < kept.len() && kept[i] == text;
                if i < distinct(front).len() {
                    assert(distinct(front)[i] == text);
                    assert(distinct(front).contains(text));
                    let j = choose|j: int| 0 <= j < front.len() && front[j] == text;
                    assert(list[j] == text);
                } else {
                    assert(list[list.len() - 1] == text);
                }
            }
            if list.contains(text) {
                let j = choose|j: int| 0 <= j < list.len() && list[j] == text;
                if j < front.len() {
                    assert(front[j] == text);
                    assert(front.contains(text));
                    let i = choose|i: int| 0 <= i < distinct(front).len() && distinct(front)[i]
                        == text;
                    assert(kept[i] == text);
                } else if distinct(front).contains(text) {
                } else {
                    assert(kept[kept.len() - 1] == text);
                }
            }
        }
    }
}

/// The applications installed are the union of what the folders list: a
/// text is among them exactly if some folder lists it, and none is there
/// twice.
pub proof fn lemma_installed_apps_are_union(folders: Seq<FolderView>)
    ensures
        installed_apps_of(folders).no_duplicates(),
        forall|text: Seq<char>|
            #[trigger] installed_apps_of(folders).contains(text) <==> (exists|i: int|
                0 <= i < folders.len() && (#[trigger] folders[i]).apps.contains(text)),
{
    lemma_distinct(listed_apps(folders));
    assert forall|text: Seq<char>|
        #[trigger] installed_apps_of(folders).contains(text) <==> (exists|i: int|
            0 <= i < folders.len() && (#[trigger] folders[i]).apps.contains(text)) by {
        lemma_listed_apps(folders, text);
    }
}

/// A text is among the applications of a list of folders exactly if one of
/// the folders lists it.
pub proof fn lemma_listed_apps(folders: Seq<FolderView>, text: Seq<char>)
    ensures
        listed_apps(folders).contains(text) <==> (exists|i: int|
            0 <= i < folders.len() && (#[trigger] folders[i]).apps.contains(text)),
    decreases folders.len(),
{
    if folders.len() > 0 {
        let front = folders.drop_last();
        let last = folders.last();
        lemma_listed_apps(front, text);
        let all = listed_apps(folders);
        if all.contains(text) {
            let k = choose|k: int| 0 <= k < all.len() && all[k] == text;
            if k < listed_apps(front).len() {
                assert(listed_apps(front)[k] == text);
                assert(listed_apps(front).contains(text));
                let i = choose|i: int|
                    0 <= i < front.len() && (#[trigger] front[i]).apps.contains(text);
                assert(folders[i].apps.contains(text));
            } else {
                assert(last.apps[k - listed_apps(front).len()] == text);
                assert(folders[folders.len() - 1].apps.contains(text));
            }
        }
        if exists|i: int| 0 <= i < folders.len() && (#[trigger] folders[i]).apps.contains(text) {
            let i = choose|i: int|
                0 <= i < folders.len() && (#[trigger] folders[i]).apps.contains(text);
            if i < front.len() {
                assert(front[i].apps.contains(text));
                let k = choose|k: int| 0 <= k < listed_apps(front).len() && listed_apps(front)[k]
                    == text;
                assert(all[k] == text);
            } else {
                let j = choose|j: int| 0 <= j < last.apps.len() && last.apps[j] == text;
                assert(all[listed_apps(front).len() + j] == text);
            }
        }
    }
}

/// The keys of a list of children.
fn child_keys(entries: &Vec<(String, KvNode)>) -> (keys: Vec<String>)
    ensures
        strings_view(keys@) == keys_of(entries_view(entries@)),
{
    let mut keys: Vec<String> = Vec::new();
    let mut i: usize = 0;
    while i < entries.len()
        invariant
            i <= entries.len(),
            keys@.len() == i,
            forall|j: int| 0 <= j < i ==> (#[trigger] keys@[j])@ == entries@[j].0@,
        decreases entries.len() - i,
    {
        keys.push(entries[i].0.clone());
        i += 1;
    }
    assert(strings_view(keys@) =~= keys_of(entries_view(entries@)));
    keys
}

/// Reads the folder that a section describes.
pub fn folder(node: &KvNode) -> (found: Option<LibraryFolder>)
    ensures
        match found {
            Some(folder) => folder_of(node@) == Some(folder@),
            None => folder_of(node@) is None,
        },
{
    match node.get_scalar("path") {
        None => None,
        Some(path) => match node.get_section("apps") {
            None => None,
            Some(apps) => Some(LibraryFolder { path: path.clone(), apps: child_keys(apps) }),
        },
    }
}

/// Reads the folders of a decoded document, in the order in which the tree
/// holds them. A child of the body that lacks a `path` or an `apps` section
/// is passed over.
pub fn library_folders(document: &KvNode) -> (folders: Result<Vec<LibraryFolder>, VdfError>)
    ensures
        match folders {
            Ok(list) => library_folders_of(document@) == Some(folders_view(list@)),
            Err(error) => error == VdfError::Schema && library_folders_of(document@) is None,
        },
{
    let body = match body_of(document) {
        Some(body) => body,
        None => {
            return Err(VdfError::Schema);
        },
    };
    let none: Vec<(String, KvNode)> = Vec::new();
    let children = match body {
        KvNode::Section(entries) => entries,
        KvNode::Scalar(_) => &none,
    };
    proof {
        lemma_section_view(*children);
    }
    let ghost all = entries_view(children@);
    assert(all == body@.children());
    let mut list: Vec<LibraryFolder> = Vec::new();
    let mut i: usize = 0;
    assert(folders_view(list@) =~= folders_in(all.take(0)));
    while i < children.len()
        invariant
            i <= children.len(),
            all == entries_view(children@),
            folders_view(list@) == folders_in(all.take(i as int)),
        decreases children.len() - i,
    {
        let ghost before = folders_view(list@);
        assert(all.take(i + 1).drop_last() =~= all.take(i as int));
        assert(all.take(i + 1).last() == all[i as int]);
        match folder(&children[i].1) {
            Some(found) => {
                list.push(found);
                assert(folders_view(list@) =~= before.push(found@));
            },
            None => {},
        }
        i += 1;
    }
    assert(all.take(i as int) =~= all);
    Ok(list)
}

/// Tells whether `list` holds `text`.
fn holds(list: &Vec<String>, text: &String) -> (found: bool)
    ensures
        found == strings_view(list@).contains(text@),
{
    let mut i: usize = 0;
    while i < list.len()
        invariant
            i <= list.len(),
            forall|j: int| 0 <= j < i ==> strings_view(list@)[j] != text@,
        decreases list.len() - i,
    {
        if list[i] == *text {
            assert(strings_view(list@)[i as int] == text@);
            return true;
        }
        i += 1;
    }
    false
}

/// Lists the applications that are installed in any of the folders, each
/// once.
pub fn installed_apps(folders: &Vec<LibraryFolder>) -> (apps: Vec<String>)
    ensures
        strings_view(apps@) == installed_apps_of(folders_view(folders@)),
{
    let ghost all = folders_view(folders@);
    let mut apps: Vec<String> = Vec::new();
    let mut f: usize = 0;
    assert(strings_view(apps@) =~= distinct(listed_apps(all.take(0))));
    while f < folders.len()
        invariant
            f <= folders.len(),
            all == folders_view(folders@),
            strings_view(apps@) == distinct(listed_apps(all.take(f as int))),
        decreases folders.len() - f,
    {
        let listed = &folders[f].apps;
        let ghost done = listed_apps(all.take(f as int));
        let ghost these = strings_view(listed@);
        assert(all[f as int].apps == these);
        assert(all.take(f + 1).drop_last() =~= all.take(f as int));
        assert(listed_apps(all.take(f + 1)) == done + these);
        let mut j: usize = 0;
        assert(done + these.take(0) =~= done);
        while j < listed.len()
            invariant
                j <= listed.len(),
                these == strings_view(listed@),
                strings_view(apps@) == distinct(done + these.take(j as int)),
            decreases listed.len() - j,
        {
            let ghost before = strings_view(apps@);
            assert((done + these.take(j + 1)).drop_last() =~= done + these.take(j as int));
            assert((done + these.take(j + 1)).last() == these[j as int]);
            if !holds(&apps, &listed[j]) {
                apps.push(listed[j].clone());
                assert(strings_view(apps@) =~= before.push(these[j as int]));
            }
            j += 1;
        }
        assert(these.take(j as int) =~= these);
        f += 1;
    }
    assert(all.take(f as int) =~= all);
    apps
}

/// Lists the paths of the folders, in their order.
pub fn library_paths(folders: &Vec<LibraryFolder>) -> (paths: Vec<String>)
    ensures
        strings_view(paths@) == paths_of(folders_view(folders@)),
{
    let mut paths: Vec<String> = Vec::new();
    let mut i: usize = 0;
    while i < folders.len()
        invariant
            i <= folders.len(),
            paths@.len() == i,
            forall|j: int| 0 <= j < i ==> (#[trigger] paths@[j])@ == folders@[j].path@,
        decreases folders.len() - i,
    {
        paths.push(folders[i].path.clone());
        i += 1;
    }
    assert(strings_view(paths@) =~= paths_of(folders_view(folders@)));
    paths
}

/// Reads, from the text of a library-folders document, the applications
/// that are installed in any folder, each once, folder after folder in the
/// order of the decoded tree.
pub fn read_installed_apps(contents: &str) -> (apps: Result<Vec<String>, VdfError>)
    ensures
        match apps {
            Ok(list) => decoded(contents@) matches Some(document) && library_folders_of(
                document,
            ) matches Some(folders) && strings_view(list@) == installed_apps_of(folders),
            Err(VdfError::Parse) => decoded(contents@) is None,
            Err(VdfError::Schema) => decoded(contents@) matches Some(document)
                && library_folders_of(document) is None,
        },
{
    match decode(contents) {
        Err(_) => Err(VdfError::Parse),
        Ok(document) => match library_folders(&document) {
            Err(error) => Err(error),
            Ok(folders) => Ok(installed_apps(&folders)),
        },
    }
}

/// Reads, from the text of a library-folders document, the paths of the
/// folders in the order of the decoded tree. The parser files the children
/// of a section by key, so that is the order of the folders' keys as
/// strings (`10` before `2`), not the order in which the text names them.
pub fn read_library_paths(contents: &str) -> (paths: Result<Vec<String>, VdfError>)
    ensures
        match paths {
            Ok(list) => decoded(contents@) matches Some(document) && library_folders_of(
                document,
            ) matches Some(folders) && strings_view(list@) == paths_of(folders),
            Err(VdfError::Parse) => decoded(contents@) is None,
            Err(VdfError::Schema) => decoded(contents@) matches Some(document)
                && library_folders_of(document) is None,
        },
{
    match decode(contents) {
        Err(_) => Err(VdfError::Parse),
        Ok(document) => match library_folders(&document) {
            Err(error) => Err(error),
            Ok(folders) => Ok(library_paths(&folders)),
        },
    }
}

} // verus!
