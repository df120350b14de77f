use minion_adaptor::dominance::{
    dominance_blocker, sub_in_solution_into_current_refs, swap_from_solution_to_current_ref,
};
use minion_adaptor::expression::{
    Atom, CollectionKind, Expression, GroundDomain, Literal, Reference,
};
use minion_adaptor::model::{Declaration, Model, Representation};
use minion_adaptor::name::Name;
use minion_adaptor::represented::add_represented_decision_values;
use minion_adaptor::solution::Solution;
use std::cell::RefCell;

const INTS: GroundDomain = GroundDomain::Int { lower: Some(0), upper: Some(9) };

fn reference(name: &'static str, domain: Option<GroundDomain>) -> Atom {
    Atom::Reference(Reference::new(Name::User(name), domain))
}

fn current(name: &'static str, domain: Option<GroundDomain>) -> Expression {
    Expression::Atomic(reference(name, domain))
}

fn stored(name: &'static str, domain: Option<GroundDomain>) -> Expression {
    Expression::FromSolution(reference(name, domain))
}

fn solution(values: Vec<(&'static str, Literal)>) -> Solution {
    let mut solution = Solution::new();
    for (name, value) in values {
        solution.insert(Name::User(name), value);
    }
    solution
}

fn number(n: i32) -> Expression {
    Expression::literal(Literal::Int(n))
}

fn truth(b: bool) -> Expression {
    Expression::literal(Literal::Bool(b))
}

#[test]
fn values_of_other_domains_go_in_unchanged() {
    let values = solution(vec![("x", Literal::Int(1)), ("y", Literal::Bool(true))]);
    assert_eq!(
        sub_in_solution_into_current_refs(&current("x", Some(INTS)), &values),
        Some(number(1))
    );
    assert_eq!(sub_in_solution_into_current_refs(&current("x", None), &values), Some(number(1)));
    assert_eq!(
        sub_in_solution_into_current_refs(&current("y", Some(INTS)), &values),
        Some(truth(true))
    );
    assert_eq!(sub_in_solution_into_current_refs(&current("z", None), &values), None);
}

#[test]
fn values_of_bool_references_go_in_as_truth_values() {
    let values = solution(vec![
        ("zero", Literal::Int(0)),
        ("one", Literal::Int(1)),
        ("two", Literal::Int(2)),
        ("minus", Literal::Int(-1)),
        ("no", Literal::Bool(false)),
        ("set", Literal::Collection(CollectionKind::PlainSet, vec![Literal::Int(1)])),
    ]);
    let value = |name: &'static str| {
        sub_in_solution_into_current_refs(&current(name, Some(GroundDomain::Bool)), &values)
    };
    assert_eq!(value("zero"), Some(truth(false)));
    assert_eq!(value("one"), Some(truth(true)));
    assert_eq!(value("no"), Some(truth(false)));
    assert_eq!(value("two"), None);
    assert_eq!(value("minus"), None);
    assert_eq!(value("set"), None);
    assert_eq!(value("other"), None);
}

#[test]
fn values_go_into_references_only() {
    let values = solution(vec![("x", Literal::Int(3))]);
    assert_eq!(sub_in_solution_into_current_refs(&stored("x", None), &values), None);
    assert_eq!(sub_in_solution_into_current_refs(&number(3), &values), None);
    assert_eq!(
        sub_in_solution_into_current_refs(
            &Expression::Not(Box::new(current("x", None))),
            &values
        ),
        None
    );
}

#[test]
fn stored_values_become_references() {
    assert_eq!(
        swap_from_solution_to_current_ref(&stored("x", Some(INTS))),
        Some(current("x", Some(INTS)))
    );
    assert_eq!(
        swap_from_solution_to_current_ref(&Expression::FromSolution(Atom::Literal(
            Literal::Int(4)
        ))),
        Some(number(4))
    );
    assert_eq!(swap_from_solution_to_current_ref(&current("x", None)), None);
    assert_eq!(
        swap_from_solution_to_current_ref(&Expression::Not(Box::new(stored("x", None)))),
        None
    );
}

fn no_constant(_: &Expression) -> Option<Literal> {
    None
}

fn no_reduction(_: &Expression) -> Option<Expression> {
    None
}

#[test]
fn a_blocker_has_the_solution_in_place_of_references() {
    // less(current, stored), in every nesting that an expression has.
    let less = |left: Expression, right: Expression| {
        Expression::Operation("less", vec![left, right])
    };
    let relation = less(
        Expression::list(vec![current("x", Some(INTS)), current("y", None), current("z", None)]),
        Expression::Imply(
            Box::new(stored("x", Some(INTS))),
            Box::new(Expression::DominanceRelation(Box::new(stored("z", None)))),
        ),
    );
    let values = solution(vec![("x", Literal::Int(5)), ("y", Literal::Bool(true))]);
    assert_eq!(
        dominance_blocker(&relation, &values, &no_constant, &no_reduction),
        Expression::Not(Box::new(less(
            Expression::list(vec![number(5), truth(true), current("z", None)]),
            Expression::Imply(
                Box::new(current("x", Some(INTS))),
                Box::new(Expression::DominanceRelation(Box::new(current("z", None)))),
            ),
        )))
    );
}

#[test]
fn a_blocker_holds_of_what_is_not_dominated() {
    // x is implied by its stored value: dominated is what the stored value does not imply.
    let relation = Expression::And(Box::new(Expression::list(vec![
        current("x", Some(GroundDomain::Bool)),
        Expression::Not(Box::new(stored("x", Some(GroundDomain::Bool)))),
    ])));
    let blocker = |value: i32| {
        dominance_blocker(
            &relation,
            &solution(vec![("x", Literal::Int(value))]),
            &no_constant,
            &no_reduction,
        )
    };
    let either = |first: Expression| {
        Expression::Or(Box::new(Expression::list(vec![
            first,
            current("x", Some(GroundDomain::Bool)),
        ])))
    };
    assert_eq!(blocker(1), either(truth(false)));
    assert_eq!(blocker(0), either(truth(true)));
}

fn found(name: &'static str, representations: Option<Vec<Vec<u64>>>) -> Declaration {
    let mut declaration = Declaration::new_find(Name::User(name), INTS);
    declaration.representations = representations.map(|chains| {
        chains
            .into_iter()
            .map(|chain| chain.into_iter().map(|id| Representation { id }).collect())
            .collect()
    });
    declaration
}

#[test]
fn names_with_one_representation_of_one_step_get_values() {
    let mut model = Model::new(vec![]);
    model.add_symbol(found("none", None));
    model.add_symbol(found("empty", Some(vec![])));
    model.add_symbol(found("two", Some(vec![vec![1], vec![2]])));
    model.add_symbol(found("chain", Some(vec![vec![3, 4]])));
    model.add_symbol(found("no_steps", Some(vec![vec![]])));
    model.add_symbol(found("first", Some(vec![vec![5]])));
    model.add_symbol(found("unknown", Some(vec![vec![6]])));
    model.add_symbol(found("second", Some(vec![vec![7]])));
    let asked = RefCell::new(Vec::new());
    let value_up = |representation: &Representation, values: &Solution| -> Option<Literal> {
        asked.borrow_mut().push(representation.id);
        match representation.id {
            5 => Some(Literal::Int(50)),
            // Says what was there before, and what the name before it was given.
            7 => match (values.get(&Name::User("x")), values.get(&Name::User("first"))) {
                (Some(Literal::Int(x)), Some(Literal::Int(first))) => {
                    Some(Literal::Int(x + first))
                }
                _ => None,
            },
            _ => None,
        }
    };
    let mut values = solution(vec![
        ("x", Literal::Int(1)),
        ("unknown", Literal::Int(9)),
        ("first", Literal::Int(2)),
    ]);
    add_represented_decision_values(&mut values, &model, &value_up);
    assert_eq!(*asked.borrow(), vec![5, 6, 7]);
    assert_eq!(values.get(&Name::User("first")), Some(&Literal::Int(50)));
    assert_eq!(values.get(&Name::User("second")), Some(&Literal::Int(51)));
    assert_eq!(values.get(&Name::User("unknown")), Some(&Literal::Int(9)));
    assert_eq!(values.get(&Name::User("x")), Some(&Literal::Int(1)));
    assert_eq!(values.entries().len(), 4);
}

#[test]
fn the_first_declaration_of_a_name_says_what_represents_it() {
    let mut model = Model::new(vec![]);
    model.add_symbol(found("x", Some(vec![vec![1]])));
    model.add_symbol(found("x", Some(vec![vec![2, 3]])));
    assert_eq!(
        model.representations_for(&Name::User("x")),
        Some(&vec![vec![Representation { id: 1 }]])
    );
    assert_eq!(model.representations_for(&Name::User("y")), None);
}

#[test]
fn a_solution_holds_one_value_for_each_name() {
    let mut values = solution(vec![("x", Literal::Int(1)), ("y", Literal::Int(2))]);
    let before = values.clone();
    values.insert(Name::User("x"), Literal::Int(3));
    assert_eq!(values.get(&Name::User("x")), Some(&Literal::Int(3)));
    assert_eq!(values.get(&Name::User("y")), Some(&Literal::Int(2)));
    assert_eq!(values.get(&Name::Machine(1)), None);
    assert_eq!(values.entries().len(), 2);
    assert_eq!(before.get(&Name::User("x")), Some(&Literal::Int(1)));
}
