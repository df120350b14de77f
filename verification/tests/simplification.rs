use minion_adaptor::expression::{Atom, Expression, GroundDomain, Literal, Reference};
use minion_adaptor::name::Name;
use minion_adaptor::simplify::{simplify_expression_for_minion, simplify_logic};
use std::collections::VecDeque;
use uniplate::{Tree, Uniplate};

fn var(name: &'static str) -> Expression {
    Expression::Atomic(Atom::Reference(Reference::new(
        Name::User(name),
        Some(GroundDomain::Bool),
    )))
}

fn truth(value: bool) -> Expression {
    Expression::literal(Literal::Bool(value))
}

fn not(x: Expression) -> Expression {
    Expression::Not(Box::new(x))
}

fn and(items: Vec<Expression>) -> Expression {
    Expression::And(Box::new(Expression::list(items)))
}

fn or(items: Vec<Expression>) -> Expression {
    Expression::Or(Box::new(Expression::list(items)))
}

fn imply(x: Expression, y: Expression) -> Expression {
    Expression::Imply(Box::new(x), Box::new(y))
}

fn no_constant(_: &Expression) -> Option<Literal> {
    None
}

fn no_reduction(_: &Expression) -> Option<Expression> {
    None
}

fn simplify(x: Expression) -> Expression {
    simplify_expression_for_minion(x, &no_constant, &no_reduction)
}

/// The literal itself, and implications and conjunctions over truth values.
fn constant(x: &Expression) -> Option<Literal> {
    match x {
        Expression::Atomic(Atom::Literal(literal)) => Some(literal.clone()),
        Expression::Imply(a, b) => match (constant(a), constant(b)) {
            (Some(Literal::Bool(a)), Some(Literal::Bool(b))) => Some(Literal::Bool(!a || b)),
            _ => None,
        },
        Expression::And(terms) => {
            let (items, _) = terms.unwrap_matrix_unchecked()?;
            let mut all = true;
            for item in &items {
                match constant(item)? {
                    Literal::Bool(b) => all = all && b,
                    _ => return None,
                }
            }
            Some(Literal::Bool(all))
        }
        _ => None,
    }
}

/// An implication from false, or to true, is true; one from true is what it implies.
fn reduction(x: &Expression) -> Option<Expression> {
    match x {
        Expression::Imply(a, b) => {
            if **a == truth(false) || **b == truth(true) {
                Some(truth(true))
            } else if **a == truth(true) {
                Some((**b).clone())
            } else {
                None
            }
        }
        _ => None,
    }
}

#[test]
fn negations_of_truth_values_and_of_negations_go() {
    assert_eq!(simplify(not(truth(true))), truth(false));
    assert_eq!(simplify(not(truth(false))), truth(true));
    assert_eq!(simplify(not(not(var("x")))), var("x"));
    assert_eq!(simplify(not(not(not(var("x"))))), not(var("x")));
    assert_eq!(simplify(not(var("x"))), not(var("x")));
}

#[test]
fn de_morgan() {
    assert_eq!(
        simplify(not(and(vec![var("x"), not(var("y"))]))),
        or(vec![not(var("x")), var("y")])
    );
    assert_eq!(
        simplify(not(or(vec![var("x"), and(vec![var("y"), var("z")])]))),
        and(vec![not(var("x")), or(vec![not(var("y")), not(var("z"))])])
    );
}

#[test]
fn de_morgan_gives_lists() {
    let indexed = Expression::Or(Box::new(Expression::Matrix(
        vec![var("x"), var("y")],
        GroundDomain::Int { lower: Some(0), upper: Some(1) },
    )));
    assert_eq!(simplify(not(indexed)), and(vec![not(var("x")), not(var("y"))]));
}

#[test]
fn junctions_of_less_than_two_items_go() {
    assert_eq!(simplify(and(vec![])), truth(true));
    assert_eq!(simplify(or(vec![])), truth(false));
    assert_eq!(simplify(and(vec![var("x")])), var("x"));
    assert_eq!(simplify(or(vec![and(vec![var("x")])])), var("x"));
    assert_eq!(simplify(not(and(vec![]))), truth(false));
    assert_eq!(
        simplify(and(vec![var("x"), var("y")])),
        and(vec![var("x"), var("y")])
    );
}

#[test]
fn matrices_of_literals_count_as_matrices() {
    let matrix = Expression::literal(Literal::Matrix(
        vec![Literal::Bool(true), Literal::Bool(false)],
        GroundDomain::Bool,
    ));
    assert_eq!(
        simplify(not(Expression::And(Box::new(matrix)))),
        or(vec![truth(false), truth(true)])
    );
    let one = Expression::literal(Literal::Matrix(vec![Literal::Int(7)], GroundDomain::Bool));
    assert_eq!(
        simplify(Expression::Or(Box::new(one))),
        Expression::literal(Literal::Int(7))
    );
}

#[test]
fn junctions_over_anything_else_stay() {
    let comprehension = Expression::And(Box::new(Expression::Operation(
        "comprehension",
        vec![not(not(var("x")))],
    )));
    assert_eq!(
        simplify(not(comprehension)),
        not(Expression::And(Box::new(Expression::Operation(
            "comprehension",
            vec![var("x")],
        ))))
    );
}

#[test]
fn one_step_at_the_root() {
    assert_eq!(simplify_logic(&not(not(not(not(var("x")))))), Some(not(not(var("x")))));
    assert_eq!(simplify_logic(&or(vec![var("x"), var("y")])), None);
    assert_eq!(simplify_logic(&imply(var("x"), var("y"))), None);
}

#[test]
fn evaluators_are_asked_after_the_logical_operators() {
    let x = and(vec![
        imply(truth(false), var("x")),
        imply(truth(true), var("y")),
        or(vec![imply(truth(true), truth(false)), var("z")]),
    ]);
    assert_eq!(
        simplify_expression_for_minion(x, &constant, &reduction),
        and(vec![truth(true), var("y"), or(vec![truth(false), var("z")])])
    );
    // The conjunction of one item is that item, whatever an evaluator would say of it.
    let wrong = |_: &Expression| -> Option<Literal> { None };
    let also_wrong = |x: &Expression| -> Option<Expression> {
        match x {
            Expression::And(_) => Some(var("asked")),
            _ => None,
        }
    };
    assert_eq!(
        simplify_expression_for_minion(and(vec![var("x")]), &wrong, &also_wrong),
        var("x")
    );
}

#[test]
fn constants_come_before_reductions() {
    let seven = |x: &Expression| -> Option<Literal> {
        match x {
            Expression::Operation("f", _) => Some(Literal::Int(7)),
            _ => None,
        }
    };
    let eight = |x: &Expression| -> Option<Expression> {
        match x {
            Expression::Operation("f", _) | Expression::Operation("g", _) => {
                Some(Expression::literal(Literal::Int(8)))
            }
            _ => None,
        }
    };
    assert_eq!(
        simplify_expression_for_minion(
            Expression::list(vec![
                Expression::Operation("f", vec![]),
                Expression::Operation("g", vec![]),
            ]),
            &seven,
            &eight,
        ),
        Expression::list(vec![
            Expression::literal(Literal::Int(7)),
            Expression::literal(Literal::Int(8)),
        ])
    );
}

#[test]
fn an_evaluator_may_bring_in_a_negation() {
    // "false iff y" is "not y".
    let by_negation = |x: &Expression| -> Option<Expression> {
        match x {
            Expression::Operation("iff", operands) if operands[0] == truth(false) => {
                Some(not(operands[1].clone()))
            }
            _ => None,
        }
    };
    let iff = |y: Expression| Expression::Operation("iff", vec![truth(false), y]);
    assert_eq!(
        simplify_expression_for_minion(
            not(or(vec![iff(var("x")), iff(iff(var("y")))])),
            &no_constant,
            &by_negation,
        ),
        and(vec![var("x"), not(var("y"))])
    );
}

#[test]
fn simplified_expressions_are_stable() {
    let x = not(or(vec![not(and(vec![var("x"), var("y")])), imply(truth(true), var("z"))]));
    let once = simplify_expression_for_minion(x, &constant, &reduction);
    assert_eq!(once, and(vec![and(vec![var("x"), var("y")]), not(var("z"))]));
    let twice = simplify_expression_for_minion(once.clone(), &constant, &reduction);
    assert_eq!(twice, once);
}

/// The value of an expression over truth values.
fn holds(x: &Expression, values: &dyn Fn(&Name) -> bool) -> bool {
    match x {
        Expression::Atomic(Atom::Literal(Literal::Bool(b))) => *b,
        Expression::Atomic(Atom::Reference(reference)) => values(&reference.name),
        Expression::Not(x) => !holds(x, values),
        Expression::And(terms) => {
            terms.unwrap_matrix_unchecked().unwrap().0.iter().all(|x| holds(x, values))
        }
        Expression::Or(terms) => {
            terms.unwrap_matrix_unchecked().unwrap().0.iter().any(|x| holds(x, values))
        }
        Expression::Imply(x, y) => !holds(x, values) || holds(y, values),
        _ => panic!("no truth value"),
    }
}

#[test]
fn simplification_keeps_the_meaning() {
    let x = not(and(vec![
        or(vec![not(var("x")), var("y")]),
        not(or(vec![and(vec![]), imply(var("y"), truth(false))])),
        imply(truth(true), not(not(var("x")))),
    ]));
    let simplified = simplify_expression_for_minion(x.clone(), &constant, &reduction);
    for bits in 0..4 {
        let values = |name: &Name| match name {
            Name::User("x") => bits & 1 == 1,
            _ => bits & 2 == 2,
        };
        assert_eq!(holds(&simplified, &values), holds(&x, &values));
    }
}

/// An expression whose operands a generic traversal can get at.
#[derive(Clone, Debug, PartialEq, Eq)]
struct Traversed(Expression);

fn operands(x: &Expression) -> Vec<Expression> {
    match x {
        Expression::Atomic(_) | Expression::FromSolution(_) => vec![],
        Expression::Matrix(items, _) | Expression::Operation(_, items) => items.clone(),
        Expression::Not(x)
        | Expression::And(x)
        | Expression::Or(x)
        | Expression::DominanceRelation(x) => vec![(**x).clone()],
        Expression::Imply(x, y) => vec![(**x).clone(), (**y).clone()],
    }
}

fn with_operands(x: &Expression, operands: Vec<Expression>) -> Expression {
    let first = |items: &Vec<Expression>| Box::new(items[0].clone());
    match x {
        Expression::Atomic(_) | Expression::FromSolution(_) => x.clone(),
        Expression::Matrix(_, index) => Expression::Matrix(operands, *index),
        Expression::Operation(operator, _) => Expression::Operation(operator, operands),
        Expression::Not(_) => Expression::Not(first(&operands)),
        Expression::And(_) => Expression::And(first(&operands)),
        Expression::Or(_) => Expression::Or(first(&operands)),
        Expression::DominanceRelation(_) => Expression::DominanceRelation(first(&operands)),
        Expression::Imply(_, _) => {
            Expression::Imply(first(&operands), Box::new(operands[1].clone()))
        }
    }
}

impl Uniplate for Traversed {
    fn uniplate(&self) -> (Tree<Self>, Box<dyn Fn(Tree<Self>) -> Self>) {
        let node = self.0.clone();
        let children: VecDeque<Tree<Self>> =
            operands(&node).into_iter().map(|x| Tree::One(Traversed(x))).collect();
        (
            Tree::Many(children),
            Box::new(move |children| {
                let operands = children.list().0.into_iter().map(|x| x.0).collect();
                Traversed(with_operands(&node, operands))
            }),
        )
    }
}

fn simplify_by_generic_traversal(x: Expression) -> Expression {
    let mut current = Traversed(x);
    loop {
        let next = current.rewrite(&|x: Traversed| {
            simplify_logic(&x.0)
                .or_else(|| constant(&x.0).map(Expression::literal))
                .or_else(|| reduction(&x.0))
                .map(Traversed)
        });
        if next == current {
            return current.0;
        }
        current = next;
    }
}

#[test]
fn passes_are_those_of_a_generic_traversal() {
    let cases = vec![
        not(and(vec![or(vec![not(not(var("x"))), and(vec![var("y")])]), truth(true)])),
        imply(not(imply(truth(true), truth(false))), not(or(vec![]))),
        Expression::DominanceRelation(Box::new(Expression::Operation(
            "sum",
            vec![not(truth(true)), and(vec![imply(truth(false), var("x")), var("z")])],
        ))),
        and(vec![imply(truth(true), imply(truth(true), and(vec![truth(true)])))]),
    ];
    for case in cases {
        assert_eq!(
            simplify_expression_for_minion(case.clone(), &constant, &reduction),
            simplify_by_generic_traversal(case)
        );
    }
}
