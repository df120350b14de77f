//! Names of decision variables, and how they are read back from the texts that Minion has for them.
use crate::text::{all_digits, decimal, decimal_up_to, same_text};
use vstd::prelude::*;

verus! {

/// The name of a declaration. Texts are interned, so that a name is cheap to copy.
#[derive(Debug, PartialEq, Eq)]
pub enum Name {
    /// A name that the user wrote.
    User(&'static str),
    /// A name that was made up during modelling.
    Machine(i32),
    /// One of the variables that stand for another under some representation: the name of the
    /// other, the rule that made the representation, and the suffix of this variable in it.
    Represented(Box<(Name, &'static str, &'static str)>),
}

/// What a [`Name`] says.
pub enum NameView {
    User(Seq<char>),
    Machine(i32),
    Represented(Box<NameView>, Seq<char>, Seq<char>),
}

impl Name {
    pub open spec fn view(&self) -> NameView
        decreases self,
    {
        match self {
            Name::User(text) => NameView::User(text@),
            Name::Machine(n) => NameView::Machine(*n),
            Name::Represented(parts) => NameView::Represented(
                Box::new(parts.0.view()),
                parts.1@,
                parts.2@,
            ),
        }
    }

    /// Whether two names say the same.
    pub fn same(&self, other: &Name) -> (same: bool)
        ensures
            same == (self@ == other@),
        decreases self,
    {
        match (self, other) {
            (Name::User(a), Name::User(b)) => same_text(a, b),
            (Name::Machine(a), Name::Machine(b)) => *a == *b,
            (Name::Represented(a), Name::Represented(b)) => {
                same_text(a.1, b.1) && same_text(a.2, b.2) && a.0.same(&b.0)
            },
            _ => false,
        }
    }
}

impl Clone for Name {
    fn clone(&self) -> (copy: Self)
        ensures
            copy@ == self@,
        decreases self,
    {
        match self {
            Name::User(text) => Name::User(*text),
            Name::Machine(n) => Name::Machine(*n),
            Name::Represented(parts) => Name::Represented(
                Box::new((parts.0.clone(), parts.1, parts.2)),
            ),
        }
    }
}

/// What stands before the number in the text of a machine name.
pub const MACHINE_PREFIX: &'static str = "__conjure_machine_name_";

/// The pattern of a machine name: its prefix, then its number.
pub const MACHINE_PATTERN: &'static str = "__conjure_machine_name_([0-9]+)";

/// What stands before the parts in the text of a represented name.
pub const REPRESENTED_PREFIX: &'static str = "__conjure_represented_name__";

/// The pattern of a represented name: its prefix, the name represented, the rule and the suffix.
pub const REPRESENTED_PATTERN: &'static str = "__conjure_represented_name__(.*)__(.*)___(.*)";

/// Interns a text.
///
/// `ustr::Ustr::from` enters the text in a cache that lives as long as the process, and
/// `ustr::Ustr::as_str` reads the entry. Claimed: the entry holds the characters of the text.
#[verifier::external_body]
fn intern(text: &str) -> (interned: &'static str)
    ensures
        interned@ == text@,
{
    ustr::Ustr::from(text).as_str()
}

/// `text[start..end]` is a machine prefix followed by at least one digit and by digits only.
pub open spec fn machine_match(text: Seq<char>, start: int, end: int) -> bool {
    let digits = start + MACHINE_PREFIX@.len();
    &&& 0 <= start
    &&& digits < end <= text.len()
    &&& text.subrange(start, digits) == MACHINE_PREFIX@
    &&& all_digits(text.subrange(digits, end))
}

/// Among the machine matches in `text`, the one that starts first, and of those the longest.
pub open spec fn machine_found(text: Seq<char>, start: int, end: int) -> bool {
    &&& machine_match(text, start, end)
    &&& forall|s: int, e: int| #[trigger]
        machine_match(text, s, e) ==> start < s || (start == s && e <= end)
}

/// A represented prefix at `start`, `__` at `rule`, `___` at `suffix`, in this order and all on
/// one line.
pub open spec fn represented_match(text: Seq<char>, start: int, rule: int, suffix: int) -> bool {
    let name = start + REPRESENTED_PREFIX@.len();
    &&& 0 <= start
    &&& name <= rule
    &&& rule + 2 <= suffix
    &&& suffix + 3 <= text.len()
    &&& text.subrange(start, name) == REPRESENTED_PREFIX@
    &&& text[rule] == '_' && text[rule + 1] == '_'
    &&& text[suffix] == '_' && text[suffix + 1] == '_' && text[suffix + 2] == '_'
    &&& forall|i: int| start <= i < suffix ==> #[trigger] text[i] != '\n'
}

/// Among the represented matches in `text`, the one that starts first; of those the one whose
/// first part is the longest, and of those again the one whose second part is the longest.
pub open spec fn represented_found(text: Seq<char>, start: int, rule: int, suffix: int) -> bool {
    &&& represented_match(text, start, rule, suffix)
    &&& forall|s: int, r: int, x: int| #[trigger]
        represented_match(text, s, r, x) ==> start < s || (start == s && (rule > r || (rule == r
            && suffix >= x)))
}

/// `end` is where the line ends that holds position `from`.
pub open spec fn line_end(text: Seq<char>, from: int, end: int) -> bool {
    &&& from <= end <= text.len()
    &&& forall|i: int| from <= i < end ==> #[trigger] text[i] != '\n'
    &&& end < text.len() ==> text[end] == '\n'
}

/// The groups of the match of [`MACHINE_PATTERN`]: the whole match, and the digits.
pub open spec fn machine_groups(text: Seq<char>, groups: Seq<String>) -> bool {
    exists|start: int, end: int|
        {
            &&& #[trigger] machine_found(text, start, end)
            &&& groups.len() == 2
            &&& groups[0]@ == text.subrange(start, end)
            &&& groups[1]@ == text.subrange(start + MACHINE_PREFIX@.len(), end)
        }
}

/// The groups of the match of [`REPRESENTED_PATTERN`]: the whole match, and its three parts.
pub open spec fn represented_groups(text: Seq<char>, groups: Seq<String>) -> bool {
    exists|start: int, rule: int, suffix: int, end: int|
        {
            &&& #[trigger] represented_found(text, start, rule, suffix)
            &&& #[trigger] line_end(text, suffix + 3, end)
            &&& groups.len() == 4
            &&& groups[0]@ == text.subrange(start, end)
            &&& groups[1]@ == text.subrange(start + REPRESENTED_PREFIX@.len(), rule)
            &&& groups[2]@ == text.subrange(rule + 2, suffix)
            &&& groups[3]@ == text.subrange(suffix + 3, end)
        }
}

/// Searches `text` for the first match of a pattern and hands out the match and its groups.
///
/// `regex::Regex::new` compiles the pattern and `regex::Regex::captures` searches the text.
/// Claimed, of the two patterns of this module only: a match is found whenever there is one; it
/// is the leftmost; each repetition in it, from the left, is as long as it can be while the rest
/// still matches; and `.` stands for every character but a line feed.
#[verifier::external_body]
fn captures(pattern: &str, text: &str) -> (groups: Option<Vec<String>>)
    requires
        pattern@ == MACHINE_PATTERN@ || pattern@ == REPRESENTED_PATTERN@,
    ensures
        pattern@ == MACHINE_PATTERN@ ==> match groups {
            Some(groups) => machine_groups(text@, groups@),
            None => forall|s: int, e: int| !machine_match(text@, s, e),
        },
        pattern@ == REPRESENTED_PATTERN@ ==> match groups {
            Some(groups) => represented_groups(text@, groups@),
            None => forall|s: int, r: int, x: int| !represented_match(text@, s, r, x),
        },
{
    regex::Regex::new(pattern).unwrap().captures(text).map(
        |found| found.iter().map(|group| group.unwrap().as_str().to_string()).collect(),
    )
}

/// The digits of the machine name that `text` holds, if it holds one.
pub open spec fn machine_digits(text: Seq<char>) -> Option<Seq<char>> {
    if exists|start: int, end: int| machine_found(text, start, end) {
        let (start, end) = choose|start: int, end: int| machine_found(text, start, end);
        Some(text.subrange(start + MACHINE_PREFIX@.len(), end))
    } else {
        None
    }
}

/// The parts of the represented name that `text` holds, if it holds one.
pub open spec fn represented_parts(text: Seq<char>) -> Option<(Seq<char>, Seq<char>, Seq<char>)> {
    if exists|start: int, rule: int, suffix: int, end: int|
        #[trigger] represented_found(text, start, rule, suffix) && #[trigger] line_end(
            text,
            suffix + 3,
            end,
        ) {
        let (start, rule, suffix, end) = choose|start: int, rule: int, suffix: int, end: int|
            #[trigger] represented_found(text, start, rule, suffix) && #[trigger] line_end(
                text,
                suffix + 3,
                end,
            );
        Some(
            (
                text.subrange(start + REPRESENTED_PREFIX@.len(), rule),
                text.subrange(rule + 2, suffix),
                text.subrange(suffix + 3, end),
            ),
        )
    } else {
        None
    }
}

/// The name that a text of Minion stands for: a machine name if it holds one, else a represented
/// name if it holds one, else what the user wrote. `None` where a number is too large to be that
/// of a machine name.
pub open spec fn named(text: Seq<char>) -> Option<NameView>
    decreases text.len(),
{
    match machine_digits(text) {
        Some(digits) => if decimal(digits) <= i32::MAX {
            Some(NameView::Machine(decimal(digits) as i32))
        } else {
            None
        },
        None => match represented_parts(text) {
            Some((name, rule, suffix)) => match named(name) {
                Some(name) => Some(NameView::Represented(Box::new(name), rule, suffix)),
                None => None,
            },
            None => Some(NameView::User(text)),
        },
    }
}

proof fn lemma_machine_digits(text: Seq<char>, groups: Seq<String>)
    requires
        machine_groups(text, groups),
    ensures
        groups.len() == 2,
        machine_digits(text) == Some(groups[1]@),
        all_digits(groups[1]@),
{
}

proof fn lemma_represented_parts(text: Seq<char>, groups: Seq<String>)
    requires
        represented_groups(text, groups),
    ensures
        groups.len() == 4,
        represented_parts(text) == Some((groups[1]@, groups[2]@, groups[3]@)),
        groups[1]@.len() < text.len(),
{
}

/// Reads a name back from the text that Minion knows it by; `None` where the number of a machine
/// name is too large.
pub fn checked_parse_name(minion_name: &str) -> (name: Option<Name>)
    ensures
        match name {
            Some(name) => named(minion_name@) == Some(name@),
            None => named(minion_name@) is None,
        },
    decreases minion_name@.len(),
{
    if let Some(groups) = captures(MACHINE_PATTERN, minion_name) {
        proof {
            lemma_machine_digits(minion_name@, groups@);
        }
        match decimal_up_to(groups[1].as_str(), i32::MAX as u64) {
            Some(number) => Some(Name::Machine(number as i32)),
            None => None,
        }
    } else if let Some(groups) = captures(REPRESENTED_PATTERN, minion_name) {
        proof {
            lemma_represented_parts(minion_name@, groups@);
        }
        match checked_parse_name(groups[1].as_str()) {
            Some(name) => Some(
                Name::Represented(
                    Box::new((name, intern(groups[2].as_str()), intern(groups[3].as_str()))),
                ),
            ),
            None => None,
        }
    } else {
        Some(Name::User(intern(minion_name)))
    }
}

/// Reads a name back from the text that Minion knows it by.
pub fn parse_name(minion_name: &str) -> (name: Name)
    requires
        named(minion_name@) is Some,
    ensures
        named(minion_name@) == Some(name@),
{
    checked_parse_name(minion_name).unwrap()
}

} // verus!
