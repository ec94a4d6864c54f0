//! Identifiers: unsigned integers that the documents spell as decimal keys.
//! An application's identifier fits `u32`; a document is also read for
//! every key that spells a number up to `u64::MAX`.

use vstd::prelude::*;

verus! {

/// Whether `c` is one of `0` to `9`.
pub open spec fn is_digit(c: char) -> bool {
    0x30 <= c as u32 <= 0x39
}

/// The number that a digit stands for.
pub open spec fn digit_value(c: char) -> nat {
    if is_digit(c) {
        (c as u32 - 0x30) as nat
    } else {
        0
    }
}

/// Whether `text` holds digits only.
pub open spec fn all_digits(text: Seq<char>) -> bool {
    forall|i: int| 0 <= i < text.len() ==> is_digit(#[trigger] text[i])
}

/// The number that a run of digits spells in base ten.
pub open spec fn decimal_value(digits: Seq<char>) -> nat
    decreases digits.len(),
{
    if digits.len() == 0 {
        0
    } else {
        10 * decimal_value(digits.drop_last()) + digit_value(digits.last())
    }
}

/// What follows an optional leading `+`.
pub open spec fn unsigned_part(key: Seq<char>) -> Seq<char> {
    if key.len() > 0 && key[0] == '+' {
        key.drop_first()
    } else {
        key
    }
}

/// The number that a key spells: an optional `+`, then at least one digit
/// and nothing else, the number no greater than `u64::MAX`.
pub open spec fn parse_id(key: Seq<char>) -> Option<u64> {
    let digits = unsigned_part(key);
    if digits.len() > 0 && all_digits(digits) && decimal_value(digits) <= u64::MAX {
        Some(decimal_value(digits) as u64)
    } else {
        None
    }
}

/// The application identifier that a key spells: as [`parse_id`], the
/// number no greater than `u32::MAX`.
pub open spec fn parse_app_id(key: Seq<char>) -> Option<u32> {
    let digits = unsigned_part(key);
    if digits.len() > 0 && all_digits(digits) && decimal_value(digits) <= u32::MAX {
        Some(decimal_value(digits) as u32)
    } else {
        None
    }
}

/// The character of a digit below ten.
pub open spec fn digit_char(d: nat) -> char
    recommends
        d < 10,
{
    (0x30 + d) as u8 as char
}

/// The key under which an identifier is written: its digits in base ten,
/// without sign or leading zeros.
pub open spec fn decimal(n: nat) -> Seq<char>
    decreases n,
{
    if n < 10 {
        seq![digit_char(n)]
    } else {
        decimal(n / 10).push(digit_char(n % 10))
    }
}

/// The test "this key spells `id`".
pub open spec fn names(id: u64) -> spec_fn(Seq<char>) -> bool {
    |key: Seq<char>| parse_id(key) == Some(id)
}

/// A key spells an application identifier exactly if it spells the same
/// number as a wide identifier.
pub proof fn lemma_app_id_is_id(key: Seq<char>, id: u32)
    ensures
        parse_app_id(key) == Some(id) <==> parse_id(key) == Some(id as u64),
{
}

/// A longer run of digits spells no smaller a number than its beginning.
pub proof fn lemma_decimal_value_grows(digits: Seq<char>, k: int)
    requires
        0 <= k <= digits.len(),
    ensures
        decimal_value(digits.take(k)) <= decimal_value(digits),
    decreases digits.len() - k,
{
    if k < digits.len() {
        lemma_decimal_value_grows(digits, k + 1);
        assert(digits.take(k + 1).drop_last() =~= digits.take(k));
    } else {
        assert(digits.take(k) =~= digits);
    }
}

/// The decimal spelling of a number is made of digits, does not start with
/// a sign, and spells that number.
pub proof fn lemma_decimal(n: nat)
    ensures
        decimal(n).len() > 0,
        all_digits(decimal(n)),
        decimal_value(decimal(n)) == n,
    decreases n,
{
    if n < 10 {
        assert(decimal(n).drop_last() =~= Seq::<char>::empty());
        assert(decimal_value(decimal(n).drop_last()) == 0);
        assert(is_digit(digit_char(n)) && digit_value(digit_char(n)) == n) by {
            lemma_digit_char(n);
        }
    } else {
        lemma_decimal(n / 10);
        let front = decimal(n / 10);
        assert(decimal(n).drop_last() =~= front);
        lemma_digit_char(n % 10);
    }
}

/// The character of a digit is a digit, with that value.
pub proof fn lemma_digit_char(d: nat)
    requires
        d < 10,
    ensures
        is_digit(digit_char(d)),
        digit_value(digit_char(d)) == d,
{
    let byte = (0x30 + d) as u8;
    assert(byte as char as u32 == byte as u32);
}

/// A key that is the decimal spelling of an identifier spells it.
pub proof fn lemma_parse_decimal(id: u64)
    ensures
        parse_id(decimal(id as nat)) == Some(id),
        id <= u32::MAX ==> parse_app_id(decimal(id as nat)) == Some(id as u32),
{
    lemma_decimal(id as nat);
    let text = decimal(id as nat);
    assert(is_digit(text[0]));
    assert(text[0] != '+');
}

/// Reads the number that a key spells, as `str::parse::<u64>` does.
pub fn id_of(key: &str) -> (id: Option<u64>)
    ensures
        id == parse_id(key@),
{
    let n = key.unicode_len();
    let mut i: usize = 0;
    if n > 0 && key.get_char(0) == '+' {
        i = 1;
    }
    let start = i;
    let ghost digits = unsigned_part(key@);
    assert(digits =~= key@.skip(start as int));
    if i == n {
        return None;
    }
    let mut value: u128 = 0;
    while i < n
        invariant
            n == key@.len(),
            start <= i <= n,
            digits == key@.skip(start as int),
            digits == unsigned_part(key@),
            forall|j: int| 0 <= j < i - start ==> is_digit(#[trigger] digits[j]),
            value == decimal_value(digits.take(i - start)),
            value <= u64::MAX,
        decreases n - i,
    {
        let c = key.get_char(i);
        let code: u32 = c as u32;
        assert(digits[i - start] == c);
        if code < 0x30 || code > 0x39 {
            return None;
        }
        let next: u128 = value * 10 + (code - 0x30) as u128;
        proof {
            assert(digits.take(i - start + 1).drop_last() =~= digits.take(i - start));
            assert(digits.take(i - start + 1).last() == c);
            assert(next == decimal_value(digits.take(i - start + 1)));
        }
        if next > 0xffff_ffff_ffff_ffff {
            proof {
                lemma_decimal_value_grows(digits, i - start + 1);
            }
            return None;
        }
        value = next;
        i += 1;
    }
    assert(digits.take(i - start) =~= digits);
    Some(value as u64)
}

/// Reads the application identifier that a key spells, as
/// `str::parse::<u32>` does.
pub fn app_id_of(key: &str) -> (id: Option<u32>)
    ensures
        id == parse_app_id(key@),
{
    match id_of(key) {
        Some(wide) => if wide <= 0xffff_ffff {
            Some(wide as u32)
        } else {
            None
        },
        None => None,
    }
}

/// The one-character text of a digit.
fn digit_text(d: u64) -> (text: &'static str)
    requires
        d < 10,
    ensures
        text@ == seq![digit_char(d as nat)],
{
    proof {
        reveal_strlit("0");
        reveal_strlit("1");
        reveal_strlit("2");
        reveal_strlit("3");
        reveal_strlit("4");
        reveal_strlit("5");
        reveal_strlit("6");
        reveal_strlit("7");
        reveal_strlit("8");
        reveal_strlit("9");
    }
    let text = if d == 0 {
        "0"
    } else if d == 1 {
        "1"
    } else if d == 2 {
        "2"
    } else if d == 3 {
        "3"
    } else if d == 4 {
        "4"
    } else if d == 5 {
        "5"
    } else if d == 6 {
        "6"
    } else if d == 7 {
        "7"
    } else if d == 8 {
        "8"
    } else {
        "9"
    };
    assert(text@ =~= seq![digit_char(d as nat)]);
    text
}

/// Writes a number as a key: its digits in base ten.
pub fn id_text(id: u64) -> (text: String)
    ensures
        text@ == decimal(id as nat),
    decreases id,
{
    if id < 10 {
        String::from_str(digit_text(id))
    } else {
        let mut text = id_text(id / 10);
        text.append(digit_text(id % 10));
        assert(text@ =~= decimal(id as nat));
        text
    }
}

/// Writes an application identifier as a key: its digits in base ten.
pub fn decimal_text(id: u32) -> (text: String)
    ensures
        text@ == decimal(id as nat),
{
    id_text(id as u64)
}

} // verus!
