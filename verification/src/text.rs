//! Texts: comparison, decimal numbers, and the pieces that error messages are made of.
use vstd::prelude::*;
use vstd::string::StrSliceExecFns;

verus! {

/// Whether two texts hold the same characters.
pub fn same_text(a: &str, b: &str) -> (same: bool)
    ensures
        same == (a@ == b@),
{
    a.to_owned() == b.to_owned()
}

/// A decimal digit, `0` to `9`.
pub open spec fn is_digit(c: char) -> bool {
    '0' <= c && c <= '9'
}

/// A text of decimal digits only.
pub open spec fn all_digits(text: Seq<char>) -> bool {
    forall|i: int| 0 <= i < text.len() ==> is_digit(#[trigger] text[i])
}

/// The number that a text of decimal digits writes; leading zeros count for nothing.
pub open spec fn decimal(digits: Seq<char>) -> nat
    decreases digits.len(),
{
    if digits.len() == 0 {
        0
    } else {
        decimal(digits.drop_last()) * 10 + (digits.last() as int - '0' as int) as nat
    }
}

proof fn lemma_decimal_grows(digits: Seq<char>, i: int)
    requires
        0 <= i <= digits.len(),
    ensures
        decimal(digits.take(i)) <= decimal(digits),
    decreases digits.len(),
{
    if i == digits.len() {
        assert(digits.take(i) =~= digits);
    } else {
        lemma_decimal_grows(digits.drop_last(), i);
        assert(digits.drop_last().take(i) =~= digits.take(i));
    }
}

/// Reads a text of decimal digits, up to `limit`.
pub fn decimal_up_to(digits: &str, limit: u64) -> (number: Option<u64>)
    requires
        all_digits(digits@),
    ensures
        match number {
            Some(n) => n == decimal(digits@) && n <= limit,
            None => decimal(digits@) > limit,
        },
{
    let mut number: u64 = 0;
    let ghost text = digits@;
    assert(text.take(0) =~= Seq::<char>::empty());
    for c in it: digits.chars()
        invariant
            text == digits@,
            it.seq() == text,
            all_digits(text),
            number <= limit,
            number == decimal(text.take(it.index() as int)),
    {
        let ghost i = it.index() as int;
        assert(text[i] == c);
        assert(is_digit(text[i]));
        assert(text.take(i + 1).drop_last() =~= text.take(i));
        let next: u128 = number as u128 * 10 + (c as u32 - '0' as u32) as u128;
        assert(next == decimal(text.take(i + 1)));
        if next > limit as u128 {
            proof {
                lemma_decimal_grows(text, i + 1);
            }
            return None;
        }
        number = next as u64;
    }
    assert(text.take(text.len() as int) =~= text);
    Some(number)
}

/// A text as it is shown for debugging: in quotation marks, with escapes.
pub uninterp spec fn debug_quoted(text: Seq<char>) -> Seq<char>;

/// Shows a text for debugging.
///
/// The formatting of a `str` by `{:?}` in the standard library. Claimed: what it gives is a
/// matter of the characters of the text alone, named [`debug_quoted`]. Which characters are
/// escaped, and how, is not said.
#[verifier::external_body]
pub(crate) fn debug_text(text: &str) -> (quoted: String)
    ensures
        quoted@ == debug_quoted(text@),
{
    format!("{:?}", text)
}

/// The number that a text writes: decimal digits, with or without a plus sign before them. `None`
/// where the text is no such number, or the number has more than 64 bits.
pub open spec fn written_number(text: Seq<char>) -> Option<u64> {
    let digits = if text.len() > 0 && text[0] == '+' {
        text.skip(1)
    } else {
        text
    };
    if digits.len() > 0 && all_digits(digits) && decimal(digits) <= u64::MAX {
        Some(decimal(digits) as u64)
    } else {
        None
    }
}

/// Whether a text is one of decimal digits only.
fn only_digits(text: &str) -> (only: bool)
    ensures
        only == all_digits(text@),
{
    for c in it: text.chars()
        invariant
            it.seq() == text@,
            forall|k: int| 0 <= k < it.index() ==> is_digit(#[trigger] text@[k]),
    {
        assert(text@[it.index() as int] == c);
        if c < '0' || c > '9' {
            assert(!is_digit(text@[it.index() as int]));
            return false;
        }
    }
    true
}

/// Reads a number of at most 64 bits.
pub fn parse_number(text: &str) -> (number: Option<u64>)
    ensures
        number == written_number(text@),
{
    let length = text.unicode_len();
    let from: usize = if length > 0 && text.get_char(0) == '+' {
        1
    } else {
        0
    };
    let digits = text.substring_char(from, length);
    let ghost expected = if text@.len() > 0 && text@[0] == '+' {
        text@.skip(1)
    } else {
        text@
    };
    assert(digits@ =~= expected);
    if from == length {
        return None;
    }
    if !only_digits(digits) {
        return None;
    }
    decimal_up_to(digits, u64::MAX)
}

} // verus!
