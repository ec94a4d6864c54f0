//! Small tools on texts: white space, trimming, lower case, search and order.

use vstd::prelude::*;
use vstd::std_specs::iter::IteratorSpec;

verus! {

/// A list of strings, each taken as its text.
pub open spec fn strings_view(list: Seq<String>) -> Seq<Seq<char>> {
    Seq::new(list.len(), |i: int| list[i]@)
}

/// Whether `c` is white space in the sense of Unicode's `White_Space`.
pub open spec fn is_space(c: char) -> bool {
    let code = c as u32;
    ||| 0x09 <= code <= 0x0d
    ||| code == 0x20
    ||| code == 0x85
    ||| code == 0xa0
    ||| code == 0x1680
    ||| 0x2000 <= code <= 0x200a
    ||| code == 0x2028
    ||| code == 0x2029
    ||| code == 0x202f
    ||| code == 0x205f
    ||| code == 0x3000
}

/// Whether every character of `text` is white space; the empty text is blank.
pub open spec fn is_blank(text: Seq<char>) -> bool {
    forall|i: int| 0 <= i < text.len() ==> is_space(#[trigger] text[i])
}

/// `text` without the white space it starts with.
pub open spec fn trim_start(text: Seq<char>) -> Seq<char>
    decreases text.len(),
{
    if text.len() > 0 && is_space(text[0]) {
        trim_start(text.drop_first())
    } else {
        text
    }
}

/// `text` without the white space it ends with.
pub open spec fn trim_end(text: Seq<char>) -> Seq<char>
    decreases text.len(),
{
    if text.len() > 0 && is_space(text.last()) {
        trim_end(text.drop_last())
    } else {
        text
    }
}

/// `text` without the white space at either end.
pub open spec fn trimmed(text: Seq<char>) -> Seq<char> {
    trim_end(trim_start(text))
}

/// Whether `needle` occurs in `haystack` as one unbroken run.
pub open spec fn holds_text(haystack: Seq<char>, needle: Seq<char>) -> bool {
    exists|i: int|
        0 <= i <= haystack.len() - needle.len() && #[trigger] haystack.subrange(
            i,
            i + needle.len(),
        ) == needle
}

/// Whether `a` comes before `b` in the order of strings: at the first place
/// where they differ `a` has the smaller character, or `a` ends there and
/// `b` goes on.
pub open spec fn text_before(a: Seq<char>, b: Seq<char>) -> bool
    decreases a.len(),
{
    if b.len() == 0 {
        false
    } else if a.len() == 0 {
        true
    } else if a[0] != b[0] {
        (a[0] as u32) < (b[0] as u32)
    } else {
        text_before(a.drop_first(), b.drop_first())
    }
}

/// Of two texts exactly one holds: the first comes before the second, they
/// are equal, or the second comes before the first.
pub proof fn lemma_text_order_total(a: Seq<char>, b: Seq<char>)
    ensures
        text_before(a, b) || a == b || text_before(b, a),
        !(text_before(a, b) && text_before(b, a)),
        !(text_before(a, b) && a == b),
    decreases a.len(),
{
    if a.len() == 0 || b.len() == 0 {
        if a.len() == 0 && b.len() == 0 {
            assert(a =~= b);
        }
    } else if a[0] == b[0] {
        lemma_text_order_total(a.drop_first(), b.drop_first());
        if a.drop_first() == b.drop_first() {
            assert(a =~= seq![a[0]] + a.drop_first());
            assert(b =~= seq![b[0]] + b.drop_first());
        }
    } else {
        vstd::utf8::char_u32_cast(a[0], a[0] as u32);
        vstd::utf8::char_u32_cast(b[0], b[0] as u32);
    }
}

/// The order of strings is transitive.
pub proof fn lemma_text_order_transitive(a: Seq<char>, b: Seq<char>, c: Seq<char>)
    requires
        text_before(a, b),
        text_before(b, c),
    ensures
        text_before(a, c),
    decreases a.len(),
{
    if a.len() > 0 && a[0] == b[0] && b[0] == c[0] {
        lemma_text_order_transitive(a.drop_first(), b.drop_first(), c.drop_first());
    }
}

/// What `str::to_lowercase` makes of a text.
pub uninterp spec fn lowercased(text: Seq<char>) -> Seq<char>;

/// Calls `str::to_lowercase`, which maps each character by Unicode's rules
/// for lower case and depends on nothing but the text.
#[verifier::external_body]
pub(crate) fn lowercase(text: &str) -> (lower: String)
    ensures
        lower@ == lowercased(text@),
{
    text.to_lowercase()
}

/// Tells whether `c` is white space.
pub fn space_char(c: char) -> (space: bool)
    ensures
        space == is_space(c),
{
    let code: u32 = c as u32;
    (0x09 <= code && code <= 0x0d) || code == 0x20 || code == 0x85 || code == 0xa0 || code
        == 0x1680 || (0x2000 <= code && code <= 0x200a) || code == 0x2028 || code == 0x2029 || code
        == 0x202f || code == 0x205f || code == 0x3000
}

/// The characters of a text.
pub fn chars_of(text: &str) -> (chars: Vec<char>)
    ensures
        chars@ == text@,
{
    let mut chars: Vec<char> = Vec::new();
    let iter = text.chars();
    let ghost all = iter.remaining();
    assert(all == text@);
    for c in it: iter
        invariant
            it.seq() == all,
            chars@ == all.take(it.index()),
    {
        chars.push(c);
        assert(all.take(it.index() + 1) =~= all.take(it.index()).push(c));
    }
    assert(all.take(all.len() as int) =~= all);
    chars
}

/// Tells whether `text` is empty or holds white space only.
pub fn blank(text: &str) -> (blank: bool)
    ensures
        blank == is_blank(text@),
{
    let chars = chars_of(text);
    let mut i: usize = 0;
    while i < chars.len()
        invariant
            i <= chars.len(),
            chars@ == text@,
            forall|j: int| 0 <= j < i ==> is_space(#[trigger] text@[j]),
        decreases chars.len() - i,
    {
        if !space_char(chars[i]) {
            return false;
        }
        i += 1;
    }
    true
}

/// The number of white-space characters that `chars` starts with.
fn leading_space(chars: &Vec<char>) -> (count: usize)
    ensures
        count <= chars@.len(),
        trim_start(chars@) == chars@.skip(count as int),
{
    let mut count: usize = 0;
    assert(chars@.skip(0) =~= chars@);
    while count < chars.len()
        invariant
            count <= chars@.len(),
            trim_start(chars@) == trim_start(chars@.skip(count as int)),
        decreases chars.len() - count,
    {
        assert(chars@.skip(count as int)[0] == chars@[count as int]);
        if !space_char(chars[count]) {
            return count;
        }
        assert(chars@.skip(count as int).drop_first() =~= chars@.skip(count + 1));
        count += 1;
    }
    count
}

/// The index at which the white space that ends `chars` starts, no smaller
/// than `from`.
fn trailing_space(chars: &Vec<char>, from: usize) -> (to: usize)
    requires
        from <= chars@.len(),
    ensures
        from <= to <= chars@.len(),
        trim_end(chars@.skip(from as int)) == chars@.subrange(from as int, to as int),
{
    let ghost rest = chars@.skip(from as int);
    let mut to: usize = chars.len();
    assert(rest.take(to - from) =~= rest);
    while to > from
        invariant
            from <= to <= chars@.len(),
            rest == chars@.skip(from as int),
            trim_end(rest) == trim_end(rest.take(to - from)),
        decreases to,
    {
        assert(rest.take(to - from).last() == chars@[to - 1]);
        if !space_char(chars[to - 1]) {
            assert(rest.take(to - from) =~= chars@.subrange(from as int, to as int));
            return to;
        }
        assert(rest.take(to - from).drop_last() =~= rest.take(to - from - 1));
        to -= 1;
    }
    assert(rest.take(to - from) =~= chars@.subrange(from as int, to as int));
    to
}

/// Cuts the white space off both ends of `text`.
pub fn trim(text: &str) -> (cut: &str)
    ensures
        cut@ == trimmed(text@),
{
    let chars = chars_of(text);
    let from = leading_space(&chars);
    let to = trailing_space(&chars, from);
    text.substring_char(from, to)
}

/// Tells whether `needle` stands in `haystack` at index `at`.
fn stands_at(haystack: &Vec<char>, needle: &Vec<char>, at: usize) -> (found: bool)
    requires
        at + needle.len() <= haystack.len(),
    ensures
        found == (haystack@.subrange(at as int, at + needle@.len()) == needle@),
{
    let ghost part = haystack@.subrange(at as int, at + needle@.len());
    let mut i: usize = 0;
    while i < needle.len()
        invariant
            i <= needle.len(),
            at + needle.len() <= haystack.len(),
            part == haystack@.subrange(at as int, at + needle@.len()),
            forall|j: int| 0 <= j < i ==> #[trigger] part[j] == needle@[j],
        decreases needle.len() - i,
    {
        if haystack[at + i] != needle[i] {
            assert(part[i as int] != needle@[i as int]);
            return false;
        }
        i += 1;
    }
    assert(part =~= needle@);
    true
}

/// Tells whether `needle` occurs in `haystack`.
pub fn contains_chars(haystack: &Vec<char>, needle: &Vec<char>) -> (found: bool)
    ensures
        found == holds_text(haystack@, needle@),
{
    if needle.len() > haystack.len() {
        return false;
    }
    let last = haystack.len() - needle.len();
    let mut at: usize = 0;
    while at < last
        invariant
            at <= last,
            last == haystack.len() - needle.len(),
            forall|i: int|
                0 <= i < at ==> #[trigger] haystack@.subrange(i, i + needle@.len()) != needle@,
        decreases last - at,
    {
        if stands_at(haystack, needle, at) {
            return true;
        }
        at += 1;
    }
    stands_at(haystack, needle, last)
}

/// Tells whether `a` comes before `b` in the order of strings.
pub fn chars_before(a: &Vec<char>, b: &Vec<char>) -> (before: bool)
    ensures
        before == text_before(a@, b@),
{
    let mut i: usize = 0;
    assert(a@.skip(0) =~= a@ && b@.skip(0) =~= b@);
    while i < a.len() && i < b.len()
        invariant
            i <= a@.len(),
            i <= b@.len(),
            text_before(a@, b@) == text_before(a@.skip(i as int), b@.skip(i as int)),
        decreases a.len() - i,
    {
        assert(a@.skip(i as int)[0] == a@[i as int] && b@.skip(i as int)[0] == b@[i as int]);
        if a[i] != b[i] {
            let x: u32 = a[i] as u32;
            let y: u32 = b[i] as u32;
            return x < y;
        }
        assert(a@.skip(i as int).drop_first() =~= a@.skip(i + 1));
        assert(b@.skip(i as int).drop_first() =~= b@.skip(i + 1));
        i += 1;
    }
    i < b.len()
}

/// Tells whether two texts are the same.
pub fn same_chars(a: &Vec<char>, b: &Vec<char>) -> (same: bool)
    ensures
        same == (a@ == b@),
{
    if a.len() != b.len() {
        return false;
    }
    let mut i: usize = 0;
    while i < a.len()
        invariant
            i <= a@.len(),
            a@.len() == b@.len(),
            forall|j: int| 0 <= j < i ==> a@[j] == b@[j],
        decreases a.len() - i,
    {
        if a[i] != b[i] {
            return false;
        }
        i += 1;
    }
    assert(a@ =~= b@);
    true
}

} // verus!
