//! How numbers are read: what is written in base ten comes back.
use crate::text::{all_digits, decimal, is_digit, written_number};
use vstd::prelude::*;

verus! {

/// The powers of ten.
pub open spec fn power_of_ten(exponent: nat) -> nat
    decreases exponent,
{
    if exponent == 0 {
        1
    } else {
        10 * power_of_ten((exponent - 1) as nat)
    }
}

/// The number that a text of digits stands for in base ten: the sum, over all places, of the digit
/// times the power of ten of the place.
pub open spec fn place_value(digits: Seq<char>) -> nat
    decreases digits.len(),
{
    if digits.len() == 0 {
        0
    } else {
        (digits[0] as int - 48) as nat * power_of_ten((digits.len() - 1) as nat) + place_value(
            digits.drop_first(),
        )
    }
}

/// The digit of a number below ten.
pub open spec fn digit(n: nat) -> char {
    if n == 0 {
        '0'
    } else if n == 1 {
        '1'
    } else if n == 2 {
        '2'
    } else if n == 3 {
        '3'
    } else if n == 4 {
        '4'
    } else if n == 5 {
        '5'
    } else if n == 6 {
        '6'
    } else if n == 7 {
        '7'
    } else if n == 8 {
        '8'
    } else {
        '9'
    }
}

/// A number written in base ten, by division and remainder.
pub open spec fn in_base_ten(n: nat) -> Seq<char>
    decreases n,
{
    if n < 10 {
        seq![digit(n)]
    } else {
        in_base_ten(n / 10).push(digit(n % 10))
    }
}

/// A text of the characters `0` to `9`, by their codes.
pub open spec fn has_digit_codes(text: Seq<char>) -> bool {
    forall|i: int| 0 <= i < text.len() ==> 48 <= (#[trigger] text[i]) as int <= 57
}

/// The digits are the characters `0` to `9`, and a text of digits holds no others.
pub proof fn law_digits_are_zero_to_nine(c: char, text: Seq<char>)
    ensures
        is_digit(c) <==> c == '0' || c == '1' || c == '2' || c == '3' || c == '4' || c == '5' || c
            == '6' || c == '7' || c == '8' || c == '9',
        all_digits(text) <==> has_digit_codes(text),
{
    assert(is_digit(c) <==> 48 <= c as int <= 57);
    if all_digits(text) {
        assert forall|i: int| 0 <= i < text.len() implies 48 <= (#[trigger] text[i]) as int
            <= 57 by {
            assert(is_digit(text[i]));
        }
    }
    if has_digit_codes(text) {
        assert forall|i: int| 0 <= i < text.len() implies is_digit(#[trigger] text[i]) by {}
    }
}

proof fn lemma_next_place(digits: Seq<char>, c: char)
    requires
        has_digit_codes(digits),
        48 <= c as int <= 57,
    ensures
        place_value(digits.push(c)) == place_value(digits) * 10 + (c as int - 48),
    decreases digits.len(),
{
    let longer = digits.push(c);
    if digits.len() == 0 {
        assert(longer.drop_first() =~= Seq::empty());
        assert(place_value(longer.drop_first()) == 0);
        assert(longer[0] == c);
        let d = (c as int - 48) as nat;
        assert(power_of_ten((longer.len() - 1) as nat) == 1);
        assert(d * 1 == d) by (nonlinear_arith);
        assert(place_value(longer) == d * 1 + 0);
        assert(place_value(digits) == 0);
    } else {
        let rest = digits.drop_first();
        assert(longer.drop_first() =~= rest.push(c));
        assert forall|i: int| 0 <= i < rest.len() implies 48 <= (#[trigger] rest[i]) as int
            <= 57 by {
            assert(rest[i] == digits[i + 1]);
        }
        lemma_next_place(rest, c);
        let d = (digits[0] as int - 48) as nat;
        let k = (digits.len() - 1) as nat;
        let p = power_of_ten(k);
        assert(power_of_ten(digits.len()) == 10 * p);
        assert(longer[0] == digits[0]);
        assert(d * (10 * p) == (d * p) * 10) by (nonlinear_arith);
        assert(longer.len() - 1 == digits.len());
        assert(place_value(longer) == d * (10 * p) + place_value(rest.push(c)));
        assert(place_value(digits) == d * p + place_value(rest));
    }
}

/// A text of digits is read as the number that it stands for in base ten.
pub proof fn law_digits_are_read_by_place(digits: Seq<char>)
    requires
        has_digit_codes(digits),
    ensures
        decimal(digits) == place_value(digits),
    decreases digits.len(),
{
    if digits.len() > 0 {
        let rest = digits.drop_last();
        assert forall|i: int| 0 <= i < rest.len() implies 48 <= (#[trigger] rest[i]) as int
            <= 57 by {
            assert(rest[i] == digits[i]);
        }
        assert(48 <= digits[digits.len() - 1] as int <= 57);
        law_digits_are_read_by_place(rest);
        lemma_next_place(rest, digits.last());
        assert(rest.push(digits.last()) =~= digits);
    }
}

/// A number that is written in base ten is read back as itself.
pub proof fn law_written_numbers_are_read_back(n: nat)
    ensures
        in_base_ten(n).len() > 0,
        has_digit_codes(in_base_ten(n)),
        decimal(in_base_ten(n)) == n,
    decreases n,
{
    if n >= 10 {
        law_written_numbers_are_read_back(n / 10);
        let before = in_base_ten(n / 10);
        let text = in_base_ten(n);
        assert(text.drop_last() =~= before);
        assert forall|i: int| 0 <= i < text.len() implies 48 <= (#[trigger] text[i]) as int
            <= 57 by {
            if i < before.len() {
                assert(text[i] == before[i]);
            }
        }
        assert(text.last() as int - '0' as int == n % 10);
    } else {
        let text = in_base_ten(n);
        assert(text.drop_last() =~= Seq::empty());
        assert(decimal(text.drop_last()) == 0);
        assert(text.last() as int - '0' as int == n);
    }
}

/// Different numbers are written differently.
pub proof fn law_different_numbers_are_written_differently(m: nat, n: nat)
    requires
        m != n,
    ensures
        in_base_ten(m) != in_base_ten(n),
{
    law_written_numbers_are_read_back(m);
    law_written_numbers_are_read_back(n);
}

/// A text is a number of at most 64 bits just where it is a text of digits, at least one, that
/// stands for such a number, with or without a plus sign before it; it is that number.
pub proof fn law_what_a_number_is(text: Seq<char>, value: u64)
    ensures
        written_number(text) == Some(value) <==> {
            let digits = if text.len() > 0 && text[0] == '+' {
                text.drop_first()
            } else {
                text
            };
            digits.len() > 0 && has_digit_codes(digits) && place_value(digits) == value
        },
{
    let digits = if text.len() > 0 && text[0] == '+' {
        text.drop_first()
    } else {
        text
    };
    if text.len() > 0 {
        assert(text.skip(1) =~= text.drop_first());
    }
    law_digits_are_zero_to_nine('0', digits);
    if has_digit_codes(digits) {
        law_digits_are_read_by_place(digits);
    }
}

/// A number of at most 64 bits that is written in base ten is read back, with or without a plus
/// sign before it; a larger one is not read.
pub proof fn law_numbers_are_read_back(n: nat)
    ensures
        written_number(in_base_ten(n)) == (if n <= u64::MAX {
            Some(n as u64)
        } else {
            None
        }),
        written_number(seq!['+'] + in_base_ten(n)) == written_number(in_base_ten(n)),
{
    let text = in_base_ten(n);
    law_written_numbers_are_read_back(n);
    law_digits_are_zero_to_nine('0', text);
    assert(48 <= text[0] as int <= 57);
    assert((seq!['+'] + text).skip(1) =~= text);
}

} // verus!
