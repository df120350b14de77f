//! How the texts of names are read back.
use crate::name::{
    line_end, machine_found, machine_match, named, represented_found, represented_match,
    represented_parts, NameView, MACHINE_PREFIX, REPRESENTED_PREFIX,
};
use crate::number_laws::{
    has_digit_codes, in_base_ten, law_digits_are_read_by_place, law_digits_are_zero_to_nine,
    law_written_numbers_are_read_back, place_value,
};
use crate::text::{all_digits, decimal};
use vstd::prelude::*;

verus! {

/// A machine match has one that is found in its place.
proof fn lemma_machine_found(text: Seq<char>, start: int, end: int)
    requires
        machine_match(text, start, end),
    ensures
        exists|s: int, e: int| machine_found(text, s, e),
    decreases start, text.len() - end,
{
    if !machine_found(text, start, end) {
        let (s, e) = choose|s: int, e: int| #[trigger]
            machine_match(text, s, e) && !(start < s || (start == s && e <= end));
        lemma_machine_found(text, s, e);
    }
}

/// A text in which a machine prefix stands before a digit is never that of a name that the user
/// wrote, nor that of a represented name.
pub proof fn law_machine_names_come_first(text: Seq<char>, start: int, end: int)
    requires
        machine_match(text, start, end),
    ensures
        match named(text) {
            Some(name) => name is Machine,
            None => true,
        },
{
    lemma_machine_found(text, start, end);
}

/// The text of a machine name is read back as that name.
pub proof fn law_machine_name_reads_back(digits: Seq<char>)
    requires
        digits.len() > 0,
        all_digits(digits),
        decimal(digits) <= i32::MAX,
    ensures
        named(MACHINE_PREFIX@ + digits) == Some(NameView::Machine(decimal(digits) as i32)),
{
    let text = MACHINE_PREFIX@ + digits;
    let start = MACHINE_PREFIX@.len() as int;
    let end = text.len() as int;
    assert(text.subrange(0, start) =~= MACHINE_PREFIX@);
    assert(text.subrange(start, end) =~= digits);
    assert(machine_match(text, 0, end));
    assert(machine_found(text, 0, end));
    let (s, e) = choose|s: int, e: int| machine_found(text, s, e);
    assert(machine_match(text, s, e));
    assert(s == 0 && e == end);
}

/// A text that holds neither a machine name nor a represented name is that of a name that the
/// user wrote, just so.
pub proof fn law_other_texts_are_user_names(text: Seq<char>)
    requires
        forall|s: int, e: int| !machine_match(text, s, e),
        forall|s: int, r: int, x: int| !represented_match(text, s, r, x),
    ensures
        named(text) == Some(NameView::User(text)),
{
    if exists|s: int, e: int| machine_found(text, s, e) {
        let (s, e) = choose|s: int, e: int| machine_found(text, s, e);
        assert(machine_match(text, s, e));
    }
    if exists|s: int, r: int, x: int, e: int| #[trigger]
        represented_found(text, s, r, x) && #[trigger] line_end(text, x + 3, e) {
        let (s, r, x, e) = choose|s: int, r: int, x: int, e: int| #[trigger]
            represented_found(text, s, r, x) && #[trigger] line_end(text, x + 3, e);
        assert(represented_match(text, s, r, x));
    }
}

/// A text on one line.
pub open spec fn on_one_line(text: Seq<char>) -> bool {
    forall|i: int| 0 <= i < text.len() ==> #[trigger] text[i] != '\n'
}

/// A text that does not begin with an underscore, and in which no underscore follows another.
pub open spec fn single_underscores(text: Seq<char>) -> bool {
    &&& text.len() > 0 ==> text[0] != '_'
    &&& forall|i: int|
        0 <= i < text.len() - 1 && #[trigger] text[i] == '_' ==> text[i + 1] != '_'
}

/// A text that does not begin with an underscore, and in which no three underscores follow each
/// other.
pub open spec fn at_most_double_underscores(text: Seq<char>) -> bool {
    &&& text.len() > 0 ==> text[0] != '_'
    &&& forall|i: int|
        0 <= i < text.len() - 2 && #[trigger] text[i] == '_' && text[i + 1] == '_' ==> text[i + 2]
            != '_'
}

/// The text of a represented name: the name represented, the rule and the suffix.
pub open spec fn represented_text(name: Seq<char>, rule: Seq<char>, suffix: Seq<char>) -> Seq<
    char,
> {
    REPRESENTED_PREFIX@ + name + seq!['_', '_'] + rule + seq!['_', '_', '_'] + suffix
}

/// The text of a represented name is read back as that name, if it holds no machine name, it is
/// on one line, the rule has single underscores only, and the suffix at most double ones; neither
/// begins with one. The name represented can itself be a represented name.
pub proof fn law_represented_name_reads_back(name: Seq<char>, rule: Seq<char>, suffix: Seq<char>)
    requires
        on_one_line(name),
        on_one_line(rule),
        on_one_line(suffix),
        single_underscores(rule),
        at_most_double_underscores(suffix),
        forall|s: int, e: int| !machine_match(represented_text(name, rule, suffix), s, e),
        named(name) is Some,
    ensures
        named(represented_text(name, rule, suffix)) == Some(
            NameView::Represented(Box::new(named(name).unwrap()), rule, suffix),
        ),
{
    reveal_strlit("__conjure_represented_name__");
    let text = represented_text(name, rule, suffix);
    let a = REPRESENTED_PREFIX@.len() as int;
    let p = a + name.len();
    let q = p + 2 + rule.len();
    let end = text.len() as int;
    assert(end == q + 3 + suffix.len());
    assert(text.subrange(0, a) =~= REPRESENTED_PREFIX@);
    assert(text.subrange(a, p) =~= name);
    assert(text.subrange(p + 2, q) =~= rule);
    assert(text.subrange(q + 3, end) =~= suffix);
    assert forall|i: int| 0 <= i < end implies #[trigger] text[i] != '\n' by {
        if i < a {
            assert(text[i] == REPRESENTED_PREFIX@[i]);
        } else if a <= i < p {
            assert(text[i] == name[i - a]);
        } else if p + 2 <= i < q {
            assert(text[i] == rule[i - (p + 2)]);
        } else if q + 3 <= i {
            assert(text[i] == suffix[i - (q + 3)]);
        }
    }
    assert(represented_match(text, 0, p, q));
    assert forall|s: int, r: int, x: int| #[trigger]
        represented_match(text, s, r, x) implies 0 < s || (0 == s && (p > r || (p == r && q
        >= x))) by {
        lemma_last_separators(text, name, rule, suffix, r, x);
    }
    assert(represented_found(text, 0, p, q));
    assert(line_end(text, q + 3, end));
    if exists|s: int, e: int| machine_found(text, s, e) {
        let (s, e) = choose|s: int, e: int| machine_found(text, s, e);
        assert(machine_match(text, s, e));
    }
    let (s, r, x, e) = choose|s: int, r: int, x: int, e: int| #[trigger]
        represented_found(text, s, r, x) && #[trigger] line_end(text, x + 3, e);
    assert(represented_match(text, s, r, x));
    assert(s == 0 && r == p && x == q);
    if e < end {
        assert(text[e] == '\n');
    }
    assert(represented_parts(text) == Some((name, rule, suffix)));
}

/// In the text of a represented name no `__` with a `___` behind it comes later than that before
/// the rule, and no `___` later than that before the suffix.
proof fn lemma_last_separators(
    text: Seq<char>,
    name: Seq<char>,
    rule: Seq<char>,
    suffix: Seq<char>,
    r: int,
    x: int,
)
    requires
        text == represented_text(name, rule, suffix),
        single_underscores(rule),
        at_most_double_underscores(suffix),
        0 <= r,
        r + 2 <= x,
        x + 3 <= text.len(),
        text[r] == '_' && text[r + 1] == '_',
        text[x] == '_' && text[x + 1] == '_' && text[x + 2] == '_',
    ensures
        ({
            let p = REPRESENTED_PREFIX@.len() + name.len();
            let q = p + 2 + rule.len();
            p > r || (p == r && q >= x)
        }),
{
    let p = REPRESENTED_PREFIX@.len() + name.len() as int;
    let q = p + 2 + rule.len();
    assert forall|i: int| p + 2 <= i < q implies #[trigger] text[i] == rule[i - (p + 2)] by {}
    assert forall|i: int| q + 3 <= i < text.len() implies #[trigger] text[i] == suffix[i - (q
        + 3)] by {}
    // No `___` comes later than that before the suffix.
    if x > q {
        if x == q + 1 || x == q + 2 {
            assert(text[q + 3] == '_');
            assert(suffix[0] == '_');
        } else {
            let k = x - (q + 3);
            assert(suffix[k] == '_' && suffix[k + 1] == '_' && suffix[k + 2] == '_');
        }
        assert(false);
    }
    if r > p {
        if r == p + 1 {
            if rule.len() > 0 {
                assert(text[p + 2] == rule[0]);
            } else {
                assert(x == q);
                assert(r + 2 <= q);
            }
        } else if r + 1 < q {
            let k = r - (p + 2);
            assert(rule[k] == '_' && rule[k + 1] == '_');
        }
        assert(false);
    }
}

/// `piece` stands in `text` from position `at` on.
pub open spec fn stands_at(text: Seq<char>, piece: Seq<char>, at: int) -> bool {
    0 <= at && at + piece.len() <= text.len() && text.subrange(at, at + piece.len()) == piece
}

/// At `at` the text of a machine name begins: what stands before its number, and a digit.
pub open spec fn machine_name_begins(text: Seq<char>, at: int) -> bool {
    let digits = at + "__conjure_machine_name_"@.len();
    stands_at(text, "__conjure_machine_name_"@, at) && digits < text.len() && 48
        <= text[digits] as int <= 57
}

proof fn lemma_machine_begins(text: Seq<char>, start: int, end: int)
    requires
        machine_match(text, start, end),
    ensures
        machine_name_begins(text, start),
{
    assert(MACHINE_PREFIX@ == "__conjure_machine_name_"@);
    let digits = start + MACHINE_PREFIX@.len();
    let number = text.subrange(digits, end);
    law_digits_are_zero_to_nine('0', number);
    assert(number[0] == text[digits]);
}

/// The number of a machine name is what all its digits, up to the last, stand for in base ten. The
/// first machine name in a text counts, and it counts before anything else. A number that does
/// not fit gives no name.
pub proof fn law_machine_name_in_any_text(text: Seq<char>, start: int, end: int)
    requires
        machine_name_begins(text, start),
        start + "__conjure_machine_name_"@.len() < end <= text.len(),
        has_digit_codes(text.subrange(start + "__conjure_machine_name_"@.len(), end)),
        end < text.len() ==> !(48 <= text[end] as int <= 57),
        forall|s: int| 0 <= s < start ==> !machine_name_begins(text, s),
    ensures
        ({
            let number = place_value(
                text.subrange(start + "__conjure_machine_name_"@.len(), end),
            );
            named(text) == if number <= i32::MAX {
                Some(NameView::Machine(number as i32))
            } else {
                None
            }
        }),
{
    assert(MACHINE_PREFIX@ == "__conjure_machine_name_"@);
    let from = start + MACHINE_PREFIX@.len();
    let digits = text.subrange(from, end);
    law_digits_are_zero_to_nine('0', digits);
    law_digits_are_read_by_place(digits);
    assert(machine_match(text, start, end));
    assert forall|s: int, e: int| #[trigger] machine_match(text, s, e) implies start < s || (start
        == s && e <= end) by {
        lemma_machine_begins(text, s, e);
        if s == start && e > end {
            let longer = text.subrange(from, e);
            law_digits_are_zero_to_nine('0', longer);
            assert(longer[end - from] == text[end]);
        }
    }
    assert(machine_found(text, start, end));
    let (s, e) = choose|s: int, e: int| machine_found(text, s, e);
    assert(machine_match(text, s, e));
    assert(s == start && e == end);
}

/// A number that is written in base ten behind what stands before the number of a machine name
/// is read back as the machine name of that number; a number that does not fit, as none.
pub proof fn law_machine_number_reads_back(n: nat)
    ensures
        named("__conjure_machine_name_"@ + in_base_ten(n)) == (if n <= i32::MAX {
            Some(NameView::Machine(n as i32))
        } else {
            None
        }),
{
    reveal_strlit("__conjure_machine_name_");
    let digits = in_base_ten(n);
    let prefix = "__conjure_machine_name_"@;
    let text = prefix + digits;
    let end = text.len() as int;
    law_written_numbers_are_read_back(n);
    law_digits_are_read_by_place(digits);
    assert(text.subrange(0, prefix.len() as int) =~= prefix);
    assert(text.subrange(prefix.len() as int, end) =~= digits);
    assert(text[prefix.len() as int] == digits[0]);
    assert(48 <= digits[0] as int <= 57);
    assert(machine_name_begins(text, 0));
    law_machine_name_in_any_text(text, 0, end);
}

/// The texts of machine names of different numbers are read as different names.
pub proof fn law_machine_numbers_stay_apart(m: nat, n: nat)
    requires
        m < n <= i32::MAX,
    ensures
        named("__conjure_machine_name_"@ + in_base_ten(m)) != named(
            "__conjure_machine_name_"@ + in_base_ten(n),
        ),
{
    law_machine_number_reads_back(m);
    law_machine_number_reads_back(n);
}

/// What stands before the parts of a represented name stands at `start`; behind it two underscores
/// stand at `rule`, and behind these three at `suffix`; all on one line.
pub open spec fn splits(text: Seq<char>, start: int, rule: int, suffix: int) -> bool {
    &&& stands_at(text, "__conjure_represented_name__"@, start)
    &&& start + "__conjure_represented_name__"@.len() <= rule
    &&& rule + 2 <= suffix
    &&& suffix + 3 <= text.len()
    &&& text[rule] == '_' && text[rule + 1] == '_'
    &&& text[suffix] == '_' && text[suffix + 1] == '_' && text[suffix + 2] == '_'
    &&& forall|i: int| start <= i < suffix ==> #[trigger] text[i] != '\n'
}

/// The parts of a represented name, in a text without machine names. The first place counts from
/// which the text can be split. The suffix is what stands behind the last three underscores of
/// the line, the rule is what stands between the last two underscores before these and them, and
/// the name represented is all that stands before.
pub proof fn law_represented_name_in_any_text(
    text: Seq<char>,
    start: int,
    rule: int,
    suffix: int,
    end: int,
)
    requires
        forall|s: int| !machine_name_begins(text, s),
        splits(text, start, rule, suffix),
        forall|s: int, r: int, x: int| 0 <= s < start ==> !splits(text, s, r, x),
        suffix + 3 <= end <= text.len(),
        forall|i: int| start <= i < end ==> #[trigger] text[i] != '\n',
        end < text.len() ==> text[end] == '\n',
        forall|x: int|
            suffix < x <= end - 3 && #[trigger] text[x] == '_' && text[x + 1] == '_' ==> text[x + 2]
                != '_',
        forall|r: int|
            rule < r <= suffix - 2 && #[trigger] text[r] == '_' ==> text[r + 1] != '_',
    ensures
        ({
            let name = text.subrange(start + "__conjure_represented_name__"@.len(), rule);
            named(text) == match named(name) {
                Some(name) => Some(
                    NameView::Represented(
                        Box::new(name),
                        text.subrange(rule + 2, suffix),
                        text.subrange(suffix + 3, end),
                    ),
                ),
                None => None,
            }
        }),
{
    assert(REPRESENTED_PREFIX@ == "__conjure_represented_name__"@);
    assert(represented_match(text, start, rule, suffix));
    assert forall|s: int, r: int, x: int| #[trigger]
        represented_match(text, s, r, x) implies start < s || (start == s && (rule > r || (rule
        == r && suffix >= x))) by {
        assert(splits(text, s, r, x));
        if s == start {
            if end < text.len() && x >= end {
                assert(text[end] == '\n');
                assert(x == end);
            }
            if x > end - 3 {
                assert(end < text.len());
                assert(text[end] == '\n');
            }
            assert(text[x] == '_');
            assert(x <= suffix);
            assert(text[r] == '_');
        }
    }
    assert(represented_found(text, start, rule, suffix));
    assert(line_end(text, suffix + 3, end));
    assert forall|s: int, e: int| !machine_match(text, s, e) by {
        if machine_match(text, s, e) {
            lemma_machine_begins(text, s, e);
        }
    }
    if exists|s: int, e: int| machine_found(text, s, e) {
        let (s, e) = choose|s: int, e: int| machine_found(text, s, e);
        assert(machine_match(text, s, e));
    }
    let (s, r, x, e) = choose|s: int, r: int, x: int, e: int| #[trigger]
        represented_found(text, s, r, x) && #[trigger] line_end(text, x + 3, e);
    assert(represented_match(text, s, r, x));
    assert(s == start && r == rule && x == suffix);
    if e < end {
        assert(text[e] == '\n');
    }
    if end < e {
        assert(text[end] == '\n');
    }
    assert(e == end);
}

/// A text that holds no machine name and cannot be split as a represented name is the name that
/// the user wrote.
pub proof fn law_any_other_text_is_a_user_name(text: Seq<char>)
    requires
        forall|s: int| !machine_name_begins(text, s),
        forall|s: int, r: int, x: int| !splits(text, s, r, x),
    ensures
        named(text) == Some(NameView::User(text)),
{
    assert(REPRESENTED_PREFIX@ == "__conjure_represented_name__"@);
    assert forall|s: int, e: int| !machine_match(text, s, e) by {
        if machine_match(text, s, e) {
            lemma_machine_begins(text, s, e);
        }
    }
    assert forall|s: int, r: int, x: int| !represented_match(text, s, r, x) by {
        if represented_match(text, s, r, x) {
            assert(splits(text, s, r, x));
        }
    }
    law_other_texts_are_user_names(text);
}

} // verus!
