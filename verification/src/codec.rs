//! Reading and writing key-value text.
//!
//! The text format itself is the business of the parser that
//! `keyvalues_serde` ships as `keyvalues_serde::parser`. This module hands
//! text to it and turns the value it gives into a [`KvNode`] tree, and the
//! other way round. What the parser and its renderer make of their input is
//! not stated here but named: [`parsed_document`] and [`rendered_document`].
//! The order in which the crate keeps the children of a section is stated:
//! [`filed`].

use crate::error::VdfError;
use crate::node::{
    by_key, entries_view, first_match, lemma_first_match, lemma_first_match_is, lemma_section_view,
    Entries, KvNode, KvTree,
};
use crate::path::section_at;
use crate::text::{lemma_text_order_total, text_before};
use vstd::prelude::*;

verus! {

/// The value type of the parser crate, `keyvalues_serde::parser::Value`: a
/// string, or keys with the values filed under each of them.
#[verifier::external_type_specification]
#[verifier::external_body]
pub struct ExValue<'text>(keyvalues_serde::parser::Value<'text>);

/// What a value of the parser crate holds: its text, or its children in
/// the order in which `Obj::into_vdfs` hands them out, each with what it
/// holds.
pub uninterp spec fn value_tree(value: keyvalues_serde::parser::Value<'static>) -> KvTree;

/// What `keyvalues_serde::parser::parse` makes of a text: the top-level key
/// and what the value under it holds, or `None` where it rejects the text.
pub uninterp spec fn parsed_document(text: Seq<char>) -> Option<(Seq<char>, KvTree)>;

/// `sorted` with `entry` filed into it: behind every child whose key does
/// not come after its key in the order of strings.
pub open spec fn filed_in(sorted: Entries, entry: (Seq<char>, KvTree)) -> Entries
    decreases sorted.len(),
{
    if sorted.len() > 0 && text_before(entry.0, sorted.last().0) {
        filed_in(sorted.drop_last(), entry).push(sorted.last())
    } else {
        sorted.push(entry)
    }
}

/// The children by rising key, in the order of strings; children of one key
/// stay in their order.
pub open spec fn by_rising_key(entries: Entries) -> Entries
    decreases entries.len(),
{
    if entries.len() == 0 {
        Seq::empty()
    } else {
        filed_in(by_rising_key(entries.drop_last()), entries.last())
    }
}

/// What the value holds that is built from a tree. The parser crate keeps
/// the children of a section in a map from each key to the children under
/// it, so they come out by rising key, those of one key in their order; and
/// so do the children of every section below.
pub open spec fn filed(tree: KvTree) -> KvTree
    decreases tree,
{
    match tree {
        KvTree::Scalar(text) => KvTree::Scalar(text),
        KvTree::Section(entries) => KvTree::Section(
            by_rising_key(
                Seq::new(
                    entries.len(),
                    |i: int|
                        if 0 <= i < entries.len() {
                            (entries[i].0, filed(entries[i].1))
                        } else {
                            (Seq::empty(), KvTree::Scalar(Seq::empty()))
                        },
                ),
            ),
        ),
    }
}

/// The first child under a key in a list with one more child at its end:
/// the first in the list, or the new child where the list has none.
proof fn lemma_child_of_push(entries: Entries, entry: (Seq<char>, KvTree), key: Seq<char>)
    ensures
        KvTree::Section(entries.push(entry)).child(key) == match KvTree::Section(entries).child(
            key,
        ) {
            Some(child) => Some(child),
            None => if entry.0 == key {
                Some(entry.1)
            } else {
                None
            },
        },
{
    let at = first_match(entries, by_key(key));
    let more = entries.push(entry);
    lemma_first_match(entries, by_key(key));
    if at < entries.len() {
        lemma_first_match_is(more, by_key(key), at);
    } else if entry.0 == key {
        lemma_first_match_is(more, by_key(key), entries.len() as int);
    } else {
        lemma_first_match_is(more, by_key(key), more.len() as int);
    }
}

/// Filing a child into a list keeps what was the first child under each
/// key the first, and adds one child.
pub proof fn lemma_filed_in(sorted: Entries, entry: (Seq<char>, KvTree), key: Seq<char>)
    ensures
        filed_in(sorted, entry).len() == sorted.len() + 1,
        KvTree::Section(filed_in(sorted, entry)).child(key) == match KvTree::Section(sorted).child(
            key,
        ) {
            Some(child) => Some(child),
            None => if entry.0 == key {
                Some(entry.1)
            } else {
                None
            },
        },
    decreases sorted.len(),
{
    if sorted.len() > 0 && text_before(entry.0, sorted.last().0) {
        let front = sorted.drop_last();
        let last = sorted.last();
        lemma_filed_in(front, entry, key);
        lemma_child_of_push(filed_in(front, entry), last, key);
        lemma_child_of_push(front, last, key);
        assert(sorted =~= front.push(last));
        lemma_text_order_total(entry.0, last.0);
    } else {
        lemma_child_of_push(sorted, entry, key);
    }
}

/// Putting the children by rising key keeps their number and, under each
/// key, the first child.
pub proof fn lemma_by_rising_key(entries: Entries, key: Seq<char>)
    ensures
        by_rising_key(entries).len() == entries.len(),
        KvTree::Section(by_rising_key(entries)).child(key) == KvTree::Section(entries).child(key),
    decreases entries.len(),
{
    if entries.len() > 0 {
        let front = entries.drop_last();
        let last = entries.last();
        lemma_by_rising_key(front, key);
        lemma_filed_in(by_rising_key(front), last, key);
        lemma_child_of_push(front, last, key);
        assert(entries =~= front.push(last));
    }
}

/// Filing keeps every lookup: the first child under a key in the filed
/// tree is the first child under that key in the tree, filed; and a filed
/// section has as many children as the section.
pub proof fn lemma_filed_keeps_children(tree: KvTree, key: Seq<char>)
    ensures
        filed(tree).children().len() == tree.children().len(),
        filed(tree).child(key) == match tree.child(key) {
            Some(child) => Some(filed(child)),
            None => None,
        },
        tree is Section <==> filed(tree) is Section,
{
    reveal_with_fuel(filed, 2);
    match tree {
        KvTree::Scalar(_) => {
            lemma_first_match(tree.children(), by_key(key));
        },
        KvTree::Section(entries) => {
            let at = first_match(entries, by_key(key));
            lemma_first_match(entries, by_key(key));
            assert forall|each: Entries|
                each.len() == entries.len() && (forall|i: int|
                    0 <= i < entries.len() ==> each[i] == (entries[i].0, filed(entries[i].1)))
                    implies (#[trigger] by_rising_key(each)).len() == entries.len()
                    && KvTree::Section(by_rising_key(each)).child(key) == match tree.child(key) {
                    Some(child) => Some(filed(child)),
                    None => None,
                } by {
                lemma_first_match_is(each, by_key(key), at);
                lemma_by_rising_key(each, key);
            }
        },
    }
}

/// Filing keeps every chain of sections: a path leads in the filed tree to
/// what it leads to in the tree, filed.
pub proof fn lemma_filed_keeps_sections(tree: KvTree, path: Seq<Seq<char>>)
    ensures
        section_at(filed(tree), path) == match section_at(tree, path) {
            Some(found) => Some(filed(found)),
            None => None,
        },
    decreases path.len(),
{
    if path.len() == 0 {
        lemma_filed_keeps_children(tree, Seq::empty());
    } else {
        lemma_filed_keeps_children(tree, path[0]);
        match tree.child(path[0]) {
            Some(next) => {
                lemma_filed_keeps_children(next, path[0]);
                lemma_filed_keeps_sections(next, path.drop_first());
            },
            None => {},
        }
    }
}

/// The text that the `Display` of the parser crate's `Vdf` writes for a key
/// and a value that holds `value`.
pub uninterp spec fn rendered_document(key: Seq<char>, value: KvTree) -> Seq<char>;

/// Calls `keyvalues_serde::parser::parse` and hands out the top-level key
/// and value where the parser accepts the text, `None` where it does not.
#[verifier::external_body]
fn parse_text(text: &str) -> (parsed: Option<(String, keyvalues_serde::parser::Value<'static>)>)
    ensures
        parsed matches Some(pair) ==> parsed_document(text@) == Some(
            (pair.0@, value_tree(pair.1)),
        ),
        parsed is None ==> parsed_document(text@) is None,
{
    match keyvalues_serde::parser::parse(text) {
        Ok(vdf) => Some((vdf.key.into_owned(), vdf.value.into_owned())),
        Err(_) => None,
    }
}

/// Turns a value of the parser crate into a [`KvNode`]: a string into a
/// scalar, an object into a section of the children that `Obj::into_vdfs`
/// hands out, each turned in the same way.
#[verifier::external_body]
fn node_from_value(value: keyvalues_serde::parser::Value<'static>) -> (node: KvNode)
    ensures
        node@ == value_tree(value),
{
    match value {
        keyvalues_serde::parser::Value::Str(text) => KvNode::Scalar(text.into_owned()),
        keyvalues_serde::parser::Value::Obj(obj) => {
            let mut children = Vec::new();
            for pair in obj.into_vdfs() {
                children.push((pair.key.into_owned(), node_from_value(pair.value)));
            }
            KvNode::Section(children)
        },
    }
}

/// Turns a [`KvNode`] into a value of the parser crate: a scalar into a
/// string, a section into an object under whose keys the children are
/// filed one after the other, each turned in the same way. The object is a
/// `BTreeMap` from key to the list of children under it, which hands out its
/// keys in the order of strings.
#[verifier::external_body]
fn value_from_node(node: &KvNode) -> (value: keyvalues_serde::parser::Value<'static>)
    ensures
        value_tree(value) == filed(node@),
{
    match node {
        KvNode::Scalar(text) => keyvalues_serde::parser::Value::Str(text.clone().into()),
        KvNode::Section(entries) => {
            let mut obj = keyvalues_serde::parser::Obj::new();
            for (key, child) in entries {
                obj.entry(key.clone().into()).or_default().push(value_from_node(child));
            }
            keyvalues_serde::parser::Value::Obj(obj)
        },
    }
}

/// Writes a key and a value through the `Display` of the parser crate's
/// `Vdf`, which escapes what a quoted string cannot hold as it is.
#[verifier::external_body]
fn render_value(key: &str, value: keyvalues_serde::parser::Value<'static>) -> (text: String)
    ensures
        text@ == rendered_document(key@, value_tree(value)),
{
    keyvalues_serde::parser::Vdf::new(key.into(), value).to_string()
}

/// The document that a text decodes to: a section with the root key as its
/// only child, and a section under it.
pub open spec fn decoded(text: Seq<char>) -> Option<KvTree> {
    match parsed_document(text) {
        Some((key, value)) => if value is Section {
            Some(KvTree::Section(seq![(key, value)]))
        } else {
            None
        },
        None => None,
    }
}

/// The body of a document: the section under its root key. A document is a
/// section with exactly one child, and that child is a section.
pub open spec fn document_body(document: KvTree) -> Option<KvTree> {
    if document is Section && document.children().len() == 1 && document.children()[0].1
        is Section {
        Some(document.children()[0].1)
    } else {
        None
    }
}

/// The body of a document, where it has the shape of one.
pub fn body_of(document: &KvNode) -> (body: Option<&KvNode>)
    ensures
        match body {
            Some(node) => document_body(document@) == Some(node@),
            None => document_body(document@) is None,
        },
{
    match document {
        KvNode::Scalar(_) => None,
        KvNode::Section(children) => {
            proof {
                lemma_section_view(*children);
            }
            if children.len() != 1 {
                return None;
            }
            match &children[0].1 {
                KvNode::Scalar(_) => None,
                KvNode::Section(_) => Some(&children[0].1),
            }
        },
    }
}

/// Decodes a document. The text is well formed where the parser accepts it
/// and the value under the top-level key is a section; what comes out is a
/// section with the root key as its only child.
pub fn decode(text: &str) -> (document: Result<KvNode, VdfError>)
    ensures
        match document {
            Ok(root) => decoded(text@) == Some(root@) && document_body(root@) is Some,
            Err(error) => error == VdfError::Parse && decoded(text@) is None,
        },
{
    match parse_text(text) {
        Some((key, value)) => match node_from_value(value) {
            KvNode::Section(children) => {
                let value = KvNode::Section(children);
                let mut entries: Vec<(String, KvNode)> = Vec::new();
                entries.push((key, value));
                proof {
                    lemma_section_view(entries);
                    assert(entries_view(entries@) =~= seq![(key@, value@)]);
                }
                Ok(KvNode::Section(entries))
            },
            KvNode::Scalar(_) => Err(VdfError::Parse),
        },
        None => Err(VdfError::Parse),
    }
}

/// The text that a tree is encoded to under a root key.
pub open spec fn encoded(root_key: Seq<char>, tree: KvTree) -> Seq<char> {
    rendered_document(root_key, filed(tree))
}

/// Encodes `node` as the value under `root_key`: the children of every
/// section are filed by rising key, and the parser crate's renderer writes
/// the text.
pub fn encode(node: &KvNode, root_key: &str) -> (text: String)
    ensures
        text@ == encoded(root_key@, node@),
{
    render_value(root_key, value_from_node(node))
}

/// What decoding makes of an encoded body, as far as the library can tell:
/// if the parser reads the renderer's text back as the key and the value
/// that were rendered, the body comes back filed, and in it every key finds
/// the child that it found before, filed, and every chain of sections leads
/// where it led before. Whether the parser does read the text back so is
/// its own and the renderer's affair, and is not stated here.
pub proof fn lemma_decoding_what_was_encoded(
    body: KvTree,
    root_key: Seq<char>,
    key: Seq<char>,
    path: Seq<Seq<char>>,
)
    ensures
        body is Section && parsed_document(encoded(root_key, body)) == Some(
            (root_key, filed(body)),
        ) ==> {
            &&& decoded(encoded(root_key, body)) == Some(
                KvTree::Section(seq![(root_key, filed(body))]),
            )
            &&& filed(body).child(key) == match body.child(key) {
                Some(child) => Some(filed(child)),
                None => None,
            }
            &&& section_at(filed(body), path) == match section_at(body, path) {
                Some(found) => Some(filed(found)),
                None => None,
            }
        },
{
    lemma_filed_keeps_children(body, key);
    lemma_filed_keeps_sections(body, path);
}

} // verus!
