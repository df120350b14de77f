use minion_adaptor::name::{checked_parse_name, parse_name, Name};
use minion_adaptor::text::{decimal_up_to, parse_number, same_text};

fn represented(name: Name, rule: &'static str, suffix: &'static str) -> Name {
    Name::Represented(Box::new((name, rule, suffix)))
}

#[test]
fn user_names_are_taken_as_they_are() {
    assert_eq!(parse_name("x"), Name::User("x"));
    assert_eq!(parse_name(""), Name::User(""));
    assert_eq!(parse_name("a_b__c___d"), Name::User("a_b__c___d"));
    assert_eq!(parse_name("\u{e9}t\u{e9}"), Name::User("\u{e9}t\u{e9}"));
}

#[test]
fn interning_keeps_the_text_of_a_computed_name() {
    let text = format!("{}{}", "ab", 12);
    assert_eq!(parse_name(&text), Name::User("ab12"));
}

#[test]
fn machine_names_have_a_number() {
    assert_eq!(parse_name("__conjure_machine_name_0"), Name::Machine(0));
    assert_eq!(parse_name("__conjure_machine_name_42"), Name::Machine(42));
    assert_eq!(parse_name("__conjure_machine_name_007"), Name::Machine(7));
    assert_eq!(parse_name("__conjure_machine_name_2147483647"), Name::Machine(2147483647));
}

#[test]
fn machine_names_are_found_anywhere_in_the_text() {
    assert_eq!(parse_name("aux__conjure_machine_name_5_more"), Name::Machine(5));
    assert_eq!(
        parse_name("__conjure_machine_name_1 __conjure_machine_name_2"),
        Name::Machine(1)
    );
    assert_eq!(
        parse_name("__conjure_machine_name_x__conjure_machine_name_12y"),
        Name::Machine(12)
    );
}

#[test]
fn a_machine_prefix_without_digits_is_no_machine_name() {
    assert_eq!(
        parse_name("__conjure_machine_name_"),
        Name::User("__conjure_machine_name_")
    );
    assert_eq!(
        parse_name("__conjure_machine_name_x1"),
        Name::User("__conjure_machine_name_x1")
    );
    // Digits of other scripts do not count.
    assert_eq!(
        parse_name("__conjure_machine_name_\u{0661}"),
        Name::User("__conjure_machine_name_\u{0661}")
    );
}

#[test]
fn machine_numbers_that_are_too_large_are_refused() {
    assert_eq!(checked_parse_name("__conjure_machine_name_2147483648"), None);
    assert_eq!(
        checked_parse_name("__conjure_machine_name_99999999999999999999999999"),
        None
    );
}

#[test]
fn represented_names_have_three_parts() {
    assert_eq!(
        parse_name("__conjure_represented_name__x__matrix_to_atom___1_2"),
        represented(Name::User("x"), "matrix_to_atom", "1_2")
    );
    assert_eq!(
        parse_name("__conjure_represented_name________"),
        represented(Name::User("_"), "", "")
    );
    assert_eq!(
        parse_name("__conjure_represented_name_______"),
        represented(Name::User(""), "", "")
    );
}

#[test]
fn represented_names_nest() {
    assert_eq!(
        parse_name(
            "__conjure_represented_name____conjure_represented_name__x__outer___a__inner___b"
        ),
        represented(represented(Name::User("x"), "outer", "a"), "inner", "b")
    );
}

#[test]
fn the_parts_of_a_represented_name_are_as_long_as_can_be_from_the_left() {
    assert_eq!(
        parse_name("__conjure_represented_name__a__b__c___d___e"),
        represented(Name::User("a__b__c_"), "d", "e")
    );
    assert_eq!(
        parse_name("__conjure_represented_name__a__b____c"),
        represented(Name::User("a"), "b_", "c")
    );
    assert_eq!(
        parse_name("__conjure_represented_name__a___b___c"),
        represented(Name::User("a_"), "b", "c")
    );
}

#[test]
fn the_suffix_of_a_represented_name_may_have_double_underscores() {
    assert_eq!(
        parse_name("__conjure_represented_name__x__rule___1__2"),
        represented(Name::User("x"), "rule", "1__2")
    );
    assert_eq!(
        parse_name("__conjure_represented_name__x__rule____1"),
        represented(Name::User("x"), "rule_", "1")
    );
}

#[test]
fn a_represented_name_is_on_one_line() {
    assert_eq!(
        parse_name("__conjure_represented_name__a__b___c\nd"),
        represented(Name::User("a"), "b", "c")
    );
    assert_eq!(
        parse_name("__conjure_represented_name__a\n__b___c"),
        Name::User("__conjure_represented_name__a\n__b___c")
    );
    assert_eq!(
        parse_name("__conjure_represented_name__\n__conjure_represented_name__a__b___c"),
        represented(Name::User("a"), "b", "c")
    );
}

#[test]
fn an_incomplete_represented_name_is_a_user_name() {
    assert_eq!(
        parse_name("__conjure_represented_name__x__r__s"),
        Name::User("__conjure_represented_name__x__r__s")
    );
}

#[test]
fn machine_names_come_before_represented_names() {
    assert_eq!(
        parse_name("__conjure_represented_name____conjure_machine_name_3__r___s"),
        Name::Machine(3)
    );
}

#[test]
fn names_compare_by_what_they_say() {
    let a = represented(Name::User("x"), "r", "s");
    assert!(a.same(&a.clone()));
    assert!(!a.same(&represented(Name::User("y"), "r", "s")));
    assert!(!a.same(&represented(Name::User("x"), "q", "s")));
    assert!(!a.same(&represented(Name::User("x"), "r", "t")));
    assert!(Name::Machine(1).same(&Name::Machine(1)));
    assert!(!Name::Machine(1).same(&Name::Machine(2)));
    assert!(!Name::Machine(1).same(&Name::User("1")));
    let computed = parse_name(&format!("{}y", "x"));
    assert!(computed.same(&Name::User("xy")));
    assert!(same_text("ab", "ab") && !same_text("ab", "abc"));
}

#[test]
fn numbers_are_read_in_decimal() {
    assert_eq!(parse_number("0"), Some(0));
    assert_eq!(parse_number("+17"), Some(17));
    assert_eq!(parse_number("0012"), Some(12));
    assert_eq!(parse_number("18446744073709551615"), Some(u64::MAX));
    assert_eq!(parse_number("18446744073709551616"), None);
    for text in ["", "+", "-1", " 1", "1 ", "++1", "1a", "0x1"] {
        assert_eq!(parse_number(text), None);
        assert!(text.parse::<u64>().is_err());
    }
    assert_eq!(decimal_up_to("100", 100), Some(100));
    assert_eq!(decimal_up_to("101", 100), None);
}
