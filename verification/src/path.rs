//! Reaching a section through a chain of keys, and putting another in its
//! place.

use crate::node::{
    by_key, clone_entries, entries_view, find_key, first_match, lemma_first_match,
    lemma_first_match_is, lemma_section_view, KvNode, KvTree,
};
use crate::text::strings_view;
use vstd::prelude::*;

verus! {

/// The section that `path` leads to from `node`: at each step the first
/// child under the step's key, which has to be a section. `None` where a
/// step finds no such child, or where `node` itself is no section.
pub open spec fn section_at(node: KvTree, path: Seq<Seq<char>>) -> Option<KvTree>
    decreases path.len(),
{
    if path.len() == 0 {
        if node is Section {
            Some(node)
        } else {
            None
        }
    } else {
        match node.section(path[0]) {
            Some(next) => section_at(next, path.drop_first()),
            None => None,
        }
    }
}

/// `node` with `new` in the place that `path` leads to. Every child that the
/// path does not pass through stays as it is and where it is; where the path
/// leads nowhere, `node` is returned as it is.
pub open spec fn replaced_at(node: KvTree, path: Seq<Seq<char>>, new: KvTree) -> KvTree
    decreases path.len(),
{
    if path.len() == 0 {
        new
    } else {
        match node.section(path[0]) {
            Some(next) => KvTree::Section(
                node.children().update(
                    first_match(node.children(), by_key(path[0])),
                    (path[0], replaced_at(next, path.drop_first(), new)),
                ),
            ),
            None => node,
        }
    }
}

/// What a path leads to is a section.
pub proof fn lemma_found_is_section(node: KvTree, path: Seq<Seq<char>>)
    ensures
        section_at(node, path) matches Some(found) ==> found is Section,
    decreases path.len(),
{
    if path.len() > 0 {
        match node.section(path[0]) {
            Some(next) => lemma_found_is_section(next, path.drop_first()),
            None => {},
        }
    }
}

/// Putting into the place that a path leads to the section that is there
/// already changes nothing.
pub proof fn lemma_replaced_by_same(node: KvTree, path: Seq<Seq<char>>)
    requires
        section_at(node, path) is Some,
    ensures
        replaced_at(node, path, section_at(node, path).unwrap()) == node,
    decreases path.len(),
{
    if path.len() > 0 {
        let at = first_match(node.children(), by_key(path[0]));
        lemma_first_match(node.children(), by_key(path[0]));
        let next = node.section(path[0]).unwrap();
        lemma_replaced_by_same(next, path.drop_first());
        assert(node.children().update(at, (path[0], next)) =~= node.children());
    }
}

/// After a section was put in the place that a path leads to, the path leads
/// to that section.
pub proof fn lemma_replaced_is_found(node: KvTree, path: Seq<Seq<char>>, new: KvTree)
    requires
        section_at(node, path) is Some,
        new is Section,
    ensures
        section_at(replaced_at(node, path, new), path) == Some(new),
    decreases path.len(),
{
    if path.len() > 0 {
        let at = first_match(node.children(), by_key(path[0]));
        lemma_first_match(node.children(), by_key(path[0]));
        let next = node.section(path[0]).unwrap();
        lemma_replaced_is_found(next, path.drop_first(), new);
        let after = replaced_at(node, path, new);
        lemma_first_match_is(after.children(), by_key(path[0]), at);
        if path.len() == 1 {
            assert(path.drop_first().len() == 0);
        }
    }
}

/// Putting a section in the place that a path leads to changes one child of
/// the node, the one that the path passes through: there are as many
/// children as before, each under its key, and every other child is what it
/// was.
pub proof fn lemma_replaced_keeps_siblings(node: KvTree, path: Seq<Seq<char>>, new: KvTree)
    requires
        path.len() > 0,
    ensures
        replaced_at(node, path, new).children().len() == node.children().len(),
        forall|i: int|
            0 <= i < node.children().len() ==> (#[trigger] replaced_at(
                node,
                path,
                new,
            ).children()[i]).0 == node.children()[i].0,
        forall|i: int|
            0 <= i < node.children().len() && i != first_match(node.children(), by_key(path[0]))
                ==> #[trigger] replaced_at(node, path, new).children()[i] == node.children()[i],
        node.section(path[0]) matches Some(next) ==> replaced_at(node, path, new).child(path[0])
            == Some(replaced_at(next, path.drop_first(), new)),
{
    let at = first_match(node.children(), by_key(path[0]));
    lemma_first_match(node.children(), by_key(path[0]));
    if node.section(path[0]) is Some {
        lemma_first_match_is(replaced_at(node, path, new).children(), by_key(path[0]), at);
    }
}

/// Putting a section in the place that a path leads to leaves every branch
/// beside the path as it is: at each depth, the section that the path
/// passes through has as many children as before, each under its key, and
/// all of them but the one that the path goes on through are what they
/// were.
pub proof fn lemma_replaced_keeps_branches(
    node: KvTree,
    path: Seq<Seq<char>>,
    new: KvTree,
    depth: int,
)
    requires
        section_at(node, path) is Some,
        new is Section,
        0 <= depth < path.len(),
    ensures
        section_at(node, path.take(depth)) is Some,
        section_at(replaced_at(node, path, new), path.take(depth)) is Some,
        ({
            let before = section_at(node, path.take(depth)).unwrap().children();
            let after = section_at(replaced_at(node, path, new), path.take(depth)).unwrap().children();
            &&& after.len() == before.len()
            &&& forall|i: int| 0 <= i < before.len() ==> (#[trigger] after[i]).0 == before[i].0
            &&& forall|i: int|
                0 <= i < before.len() && i != first_match(before, by_key(path[depth]))
                    ==> #[trigger] after[i] == before[i]
        }),
    decreases depth,
{
    let changed = replaced_at(node, path, new);
    let at = first_match(node.children(), by_key(path[0]));
    lemma_first_match(node.children(), by_key(path[0]));
    lemma_replaced_keeps_siblings(node, path, new);
    if depth == 0 {
        assert(path.take(0).len() == 0);
        assert(node.section(path[0]) is Some);
    } else {
        let next = node.section(path[0]).unwrap();
        let rest = path.drop_first();
        lemma_replaced_keeps_branches(next, rest, new, depth - 1);
        assert(path.take(depth).drop_first() =~= rest.take(depth - 1));
        assert(path.take(depth)[0] == path[0]);
        assert(rest[depth - 1] == path[depth]);
        lemma_first_match_is(changed.children(), by_key(path[0]), at);
        lemma_replaced_is_section(next, rest, new);
    }
}

/// What stands in the place of a section after a section was put in the
/// place that a path leads to from it is a section again.
pub proof fn lemma_replaced_is_section(node: KvTree, path: Seq<Seq<char>>, new: KvTree)
    requires
        section_at(node, path) is Some,
        new is Section,
    ensures
        replaced_at(node, path, new) is Section,
{
}

/// Follows `path` from `node`, starting at the step `from`.
pub fn find_section<'a>(node: &'a KvNode, path: &Vec<String>, from: usize) -> (found: Option<
    &'a KvNode,
>)
    requires
        from <= path@.len(),
    ensures
        match found {
            Some(section) => section_at(node@, strings_view(path@).skip(from as int)) == Some(
                section@,
            ),
            None => section_at(node@, strings_view(path@).skip(from as int)) is None,
        },
    decreases path@.len() - from,
{
    let ghost rest = strings_view(path@).skip(from as int);
    if from == path.len() {
        match node {
            KvNode::Section(_) => Some(node),
            KvNode::Scalar(_) => None,
        }
    } else {
        assert(rest[0] == path@[from as int]@);
        assert(rest.drop_first() =~= strings_view(path@).skip(from + 1));
        match node.get(path[from].as_str()) {
            Some(next) => match next {
                KvNode::Section(_) => find_section(next, path, from + 1),
                KvNode::Scalar(_) => None,
            },
            None => None,
        }
    }
}

/// Builds `node` anew with `new` in the place that `path` leads to from the
/// step `from` on; `None` where the path leads nowhere.
pub fn replace_section(node: &KvNode, path: &Vec<String>, from: usize, new: KvNode) -> (replaced:
    Option<KvNode>)
    requires
        from <= path@.len(),
    ensures
        match replaced {
            Some(tree) => section_at(node@, strings_view(path@).skip(from as int)) is Some && tree@
                == replaced_at(node@, strings_view(path@).skip(from as int), new@),
            None => section_at(node@, strings_view(path@).skip(from as int)) is None,
        },
    decreases path@.len() - from,
{
    let ghost rest = strings_view(path@).skip(from as int);
    if from == path.len() {
        match node {
            KvNode::Section(_) => Some(new),
            KvNode::Scalar(_) => None,
        }
    } else {
        assert(rest[0] == path@[from as int]@);
        assert(rest.drop_first() =~= strings_view(path@).skip(from + 1));
        match node {
            KvNode::Scalar(_) => {
                proof {
                    lemma_first_match(node@.children(), by_key(rest[0]));
                }
                None
            },
            KvNode::Section(children) => {
                proof {
                    lemma_section_view(*children);
                }
                let at = find_key(children, path[from].as_str());
                if at >= children.len() {
                    return None;
                }
                match &children[at].1 {
                    KvNode::Scalar(_) => None,
                    KvNode::Section(_) => {
                        match replace_section(&children[at].1, path, from + 1, new) {
                            None => None,
                            Some(child) => {
                                let mut copies = clone_entries(children);
                                assert(copies@.len() == children@.len()) by {
                                    assert(entries_view(copies@).len() == entries_view(
                                        children@,
                                    ).len());
                                }
                                let ghost before = entries_view(copies@);
                                copies.set(at, (path[from].clone(), child));
                                proof {
                                    assert(entries_view(copies@) =~= before.update(
                                        at as int,
                                        (rest[0], child@),
                                    ));
                                    lemma_section_view(copies);
                                }
                                Some(KvNode::Section(copies))
                            },
                        }
                    },
                }
            },
        }
    }
}

} // verus!
