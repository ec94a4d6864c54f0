//! The tree that a key-value text document decodes to.

use vstd::prelude::*;

verus! {

/// The mathematical value of a [`KvNode`]: a string leaf, or an ordered list
/// of keyed children.
pub enum KvTree {
    Scalar(Seq<char>),
    Section(Seq<(Seq<char>, KvTree)>),
}

/// The children of a section, in order, each with its key.
pub type Entries = Seq<(Seq<char>, KvTree)>;

/// One node of a decoded document.
///
/// A section keeps its children in order, and a key may occur more than once;
/// a lookup by key always means the first child that carries it.
#[derive(Debug, PartialEq, Eq)]
pub enum KvNode {
    Scalar(String),
    Section(Vec<(String, KvNode)>),
}

impl View for KvNode {
    type V = KvTree;

    open spec fn view(&self) -> KvTree
        decreases self,
    {
        match self {
            KvNode::Scalar(text) => KvTree::Scalar(text@),
            KvNode::Section(entries) => KvTree::Section(
                Seq::new(
                    entries@.len(),
                    |i: int|
                        if 0 <= i < entries@.len() {
                            (entries@[i].0@, entries@[i].1@)
                        } else {
                            (Seq::empty(), KvTree::Scalar(Seq::empty()))
                        },
                ),
            ),
        }
    }
}

/// The value of a list of children as they are held in memory.
pub open spec fn entries_view(entries: Seq<(String, KvNode)>) -> Entries {
    Seq::new(entries.len(), |i: int| (entries[i].0@, entries[i].1@))
}

/// A section's value is the value of its children.
pub proof fn lemma_section_view(entries: Vec<(String, KvNode)>)
    ensures
        KvNode::Section(entries)@ == KvTree::Section(entries_view(entries@)),
{
    reveal_with_fuel(<KvNode as View>::view, 2);
    assert(KvNode::Section(entries)@->Section_0 =~= entries_view(entries@));
}

/// The test "this key is `key`".
pub open spec fn by_key(key: Seq<char>) -> spec_fn(Seq<char>) -> bool {
    |k: Seq<char>| k == key
}

/// The test "this child is not keyed `key`".
pub open spec fn not_keyed(key: Seq<char>) -> spec_fn((Seq<char>, KvTree)) -> bool {
    |entry: (Seq<char>, KvTree)| entry.0 != key
}

/// The index of the first child whose key passes `pick`, or the number of
/// children where none does.
pub open spec fn first_match(entries: Entries, pick: spec_fn(Seq<char>) -> bool) -> int
    decreases entries.len(),
{
    if entries.len() == 0 {
        0
    } else if pick(entries[0].0) {
        0
    } else {
        1 + first_match(entries.drop_first(), pick)
    }
}

/// `first_match` is in range, lands on a child that passes, and passes over
/// none that does.
pub proof fn lemma_first_match(entries: Entries, pick: spec_fn(Seq<char>) -> bool)
    ensures
        0 <= first_match(entries, pick) <= entries.len(),
        first_match(entries, pick) < entries.len() ==> pick(
            entries[first_match(entries, pick)].0,
        ),
        forall|j: int| 0 <= j < first_match(entries, pick) ==> !pick((#[trigger] entries[j]).0),
    decreases entries.len(),
{
    if entries.len() != 0 && !pick(entries[0].0) {
        let rest = entries.drop_first();
        lemma_first_match(rest, pick);
        assert forall|j: int| 0 <= j < first_match(entries, pick) implies !pick(
            (#[trigger] entries[j]).0,
        ) by {
            if j > 0 {
                assert(entries[j] == rest[j - 1]);
            }
        }
    }
}

/// An index that no passing child precedes, and that holds a passing child or
/// is the end, is the `first_match`.
pub proof fn lemma_first_match_is(entries: Entries, pick: spec_fn(Seq<char>) -> bool, i: int)
    requires
        0 <= i <= entries.len(),
        i < entries.len() ==> pick(entries[i].0),
        forall|j: int| 0 <= j < i ==> !pick((#[trigger] entries[j]).0),
    ensures
        first_match(entries, pick) == i,
    decreases entries.len(),
{
    if entries.len() != 0 {
        if i == 0 {
        } else {
            assert(!pick(entries[0].0));
            let rest = entries.drop_first();
            assert forall|j: int| 0 <= j < i - 1 implies !pick((#[trigger] rest[j]).0) by {
                assert(rest[j] == entries[j + 1]);
            }
            lemma_first_match_is(rest, pick, i - 1);
        }
    }
}

impl KvTree {
    /// The children of a section; a scalar has none.
    pub open spec fn children(self) -> Entries {
        match self {
            KvTree::Section(entries) => entries,
            KvTree::Scalar(_) => Seq::empty(),
        }
    }

    /// The first child keyed `key`.
    pub open spec fn child(self, key: Seq<char>) -> Option<KvTree> {
        let at = first_match(self.children(), by_key(key));
        if at < self.children().len() {
            Some(self.children()[at].1)
        } else {
            None
        }
    }

    /// The first child keyed `key`, where that child is a section.
    pub open spec fn section(self, key: Seq<char>) -> Option<KvTree> {
        match self.child(key) {
            Some(KvTree::Section(entries)) => Some(KvTree::Section(entries)),
            _ => None,
        }
    }

    /// The text of the first child keyed `key`, where that child is a scalar.
    pub open spec fn scalar(self, key: Seq<char>) -> Option<Seq<char>> {
        match self.child(key) {
            Some(KvTree::Scalar(text)) => Some(text),
            _ => None,
        }
    }
}

/// `entries` with the value of the first child keyed `key` replaced by
/// `node`, or with such a child added at the end where there was none.
pub open spec fn with_child(entries: Entries, key: Seq<char>, node: KvTree) -> Entries {
    let at = first_match(entries, by_key(key));
    if at < entries.len() {
        entries.update(at, (key, node))
    } else {
        entries.push((key, node))
    }
}

/// `entries` without any child keyed `key`, the others in their order.
pub open spec fn without_key(entries: Entries, key: Seq<char>) -> Entries {
    entries.filter(not_keyed(key))
}

/// After `with_child` the first child keyed `key` is `node`, every other
/// position that was there holds what it held, and at most one was added.
pub proof fn lemma_with_child(entries: Entries, key: Seq<char>, node: KvTree)
    ensures
        KvTree::Section(with_child(entries, key, node)).child(key) == Some(node),
        first_match(with_child(entries, key, node), by_key(key)) == first_match(
            entries,
            by_key(key),
        ),
        forall|j: int|
            0 <= j < entries.len() && j != first_match(entries, by_key(key)) ==> with_child(
                entries,
                key,
                node,
            )[j] == #[trigger] entries[j],
        forall|other: Seq<char>|
            other != key ==> #[trigger] KvTree::Section(with_child(entries, key, node)).child(other)
                == KvTree::Section(entries).child(other),
{
    let at = first_match(entries, by_key(key));
    let after = with_child(entries, key, node);
    lemma_first_match(entries, by_key(key));
    lemma_first_match_is(after, by_key(key), at);
    assert forall|other: Seq<char>| other != key implies #[trigger] KvTree::Section(after).child(
        other,
    ) == KvTree::Section(entries).child(other) by {
        let found = first_match(entries, by_key(other));
        lemma_first_match(entries, by_key(other));
        if found < entries.len() {
            lemma_first_match_is(after, by_key(other), found);
        } else {
            lemma_first_match_is(after, by_key(other), after.len() as int);
        }
    }
}

/// No child of `without_key` is keyed `key`, so a lookup of `key` finds
/// nothing, and a lookup of any other key finds what it found before.
pub proof fn lemma_without_key(entries: Entries, key: Seq<char>)
    ensures
        forall|j: int|
            0 <= j < without_key(entries, key).len() ==> (#[trigger] without_key(
                entries,
                key,
            )[j]).0 != key,
        KvTree::Section(without_key(entries, key)).child(key) is None,
        forall|other: Seq<char>|
            other != key ==> #[trigger] KvTree::Section(without_key(entries, key)).child(other)
                == KvTree::Section(entries).child(other),
    decreases entries.len(),
{
    reveal(Seq::filter);
    let kept = without_key(entries, key);
    if entries.len() == 0 {
        assert forall|other: Seq<char>| other != key implies #[trigger] KvTree::Section(
            kept,
        ).child(other) == KvTree::Section(entries).child(other) by {}
    } else {
        let front = entries.drop_last();
        let last = entries.last();
        lemma_without_key(front, key);
        let kept_front = without_key(front, key);
        lemma_first_match(kept, by_key(key));
        assert forall|other: Seq<char>| other != key implies #[trigger] KvTree::Section(
            kept,
        ).child(other) == KvTree::Section(entries).child(other) by {
            assert(KvTree::Section(kept_front).child(other) == KvTree::Section(front).child(other));
            let in_front = first_match(front, by_key(other));
            let in_kept = first_match(kept_front, by_key(other));
            assert forall|j: int| 0 <= j < front.len() implies #[trigger] entries[j] == front[j] by {}
            assert forall|j: int| 0 <= j < kept_front.len() implies #[trigger] kept[j]
                == kept_front[j] by {}
            lemma_first_match(front, by_key(other));
            lemma_first_match(kept_front, by_key(other));
            if in_front < front.len() {
                lemma_first_match_is(entries, by_key(other), in_front);
                lemma_first_match_is(kept, by_key(other), in_kept);
            } else if last.0 == other {
                lemma_first_match_is(entries, by_key(other), front.len() as int);
                lemma_first_match_is(kept, by_key(other), kept_front.len() as int);
            } else {
                lemma_first_match_is(entries, by_key(other), entries.len() as int);
                lemma_first_match_is(kept, by_key(other), kept.len() as int);
            }
        }
    }
}

impl Clone for KvNode {
    fn clone(&self) -> (copy: Self)
        ensures
            copy@ == self@,
        decreases self,
    {
        match self {
            KvNode::Scalar(text) => KvNode::Scalar(text.clone()),
            KvNode::Section(entries) => {
                let copies = clone_entries(entries);
                proof {
                    lemma_section_view(copies);
                    lemma_section_view(*entries);
                }
                KvNode::Section(copies)
            },
        }
    }
}

/// Copies a list of children.
pub fn clone_entries(entries: &Vec<(String, KvNode)>) -> (copies: Vec<(String, KvNode)>)
    ensures
        entries_view(copies@) == entries_view(entries@),
    decreases entries,
{
    let mut copies: Vec<(String, KvNode)> = Vec::new();
    let mut i: usize = 0;
    while i < entries.len()
        invariant
            i <= entries.len(),
            copies@.len() == i,
            forall|j: int|
                0 <= j < i ==> (#[trigger] copies@[j]).0@ == entries@[j].0@ && copies@[j].1@
                    == entries@[j].1@,
        decreases entries.len() - i,
    {
        let key = entries[i].0.clone();
        let child = entries[i].1.clone();
        copies.push((key, child));
        i += 1;
    }
    assert(entries_view(copies@) =~= entries_view(entries@));
    copies
}

/// Finds the first child keyed `key`; the result is the number of children
/// where there is none.
pub fn find_key(entries: &Vec<(String, KvNode)>, key: &str) -> (at: usize)
    ensures
        at == first_match(entries_view(entries@), by_key(key@)),
{
    let wanted = String::from_str(key);
    let mut i: usize = 0;
    while i < entries.len()
        invariant
            i <= entries.len(),
            wanted@ == key@,
            forall|j: int| 0 <= j < i ==> entries@[j].0@ != key@,
        decreases entries.len() - i,
    {
        if entries[i].0 == wanted {
            proof {
                lemma_first_match_is(entries_view(entries@), by_key(key@), i as int);
            }
            return i;
        }
        i += 1;
    }
    proof {
        lemma_first_match_is(entries_view(entries@), by_key(key@), i as int);
    }
    i
}

impl KvNode {
    /// The first child keyed `key`, if this is a section that has one.
    pub fn get(&self, key: &str) -> (found: Option<&KvNode>)
        ensures
            match found {
                Some(node) => self@.child(key@) == Some(node@),
                None => self@.child(key@) is None,
            },
    {
        match self {
            KvNode::Scalar(_) => {
                proof {
                    lemma_first_match(self@.children(), by_key(key@));
                }
                None
            },
            KvNode::Section(entries) => {
                proof {
                    lemma_section_view(*entries);
                }
                let at = find_key(entries, key);
                if at < entries.len() {
                    Some(&entries[at].1)
                } else {
                    None
                }
            },
        }
    }

    /// The text of the first child keyed `key`, if that child is a scalar.
    pub fn get_scalar(&self, key: &str) -> (found: Option<&String>)
        ensures
            match found {
                Some(text) => self@.scalar(key@) == Some(text@),
                None => self@.scalar(key@) is None,
            },
    {
        match self.get(key) {
            Some(KvNode::Scalar(text)) => Some(text),
            _ => None,
        }
    }

    /// The children of the first child keyed `key`, if that child is a
    /// section.
    pub fn get_section(&self, key: &str) -> (found: Option<&Vec<(String, KvNode)>>)
        ensures
            match found {
                Some(entries) => self@.section(key@) == Some(
                    KvTree::Section(entries_view(entries@)),
                ),
                None => self@.section(key@) is None,
            },
    {
        match self.get(key) {
            Some(KvNode::Section(entries)) => {
                proof {
                    lemma_section_view(*entries);
                }
                Some(entries)
            },
            _ => None,
        }
    }
}

} // verus!
