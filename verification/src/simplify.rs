//! Simplification: expressions brought into the form in which Minion takes them.
use crate::expression::{
    constant, expression_views, lemma_expression_view, list, matrix_parts, negated, optional_view,
    truth, unary, Atom, AtomView, Expression, ExpressionView, Head, Literal, LiteralView,
};
use crate::rewrite::{rewrite, rewritten};
use vstd::prelude::*;

verus! {

/// What a function of expressions to literals returns, for every expression.
pub type Constants = spec_fn(ExpressionView) -> Option<LiteralView>;

/// What a function of expressions to expressions returns, for every expression.
pub type Reductions = spec_fn(ExpressionView) -> Option<ExpressionView>;

/// The negations of some expressions.
pub open spec fn negations(items: Seq<ExpressionView>) -> Seq<ExpressionView> {
    Seq::new(items.len(), |i: int| negated(items[i]))
}

/// The items of the matrix that a conjunction or disjunction is over.
pub open spec fn junction_items(junction: ExpressionView) -> Option<Seq<ExpressionView>> {
    if junction.operands.len() == 1 {
        match matrix_parts(junction.operands[0]) {
            Some((items, _)) => Some(items),
            None => None,
        }
    } else {
        None
    }
}

/// What the negation of `inner` simplifies to: the opposite of a truth value; what a negation
/// negates; and by De Morgan's laws a disjunction of negations for a conjunction over a matrix,
/// and a conjunction of negations for a disjunction.
pub open spec fn simplified_negation(inner: ExpressionView) -> Option<ExpressionView> {
    match inner.head {
        Head::Atomic(AtomView::Literal(LiteralView::Bool(value))) => Some(truth(!value)),
        Head::Not => if inner.operands.len() == 1 {
            Some(inner.operands[0])
        } else {
            None
        },
        Head::And => match junction_items(inner) {
            Some(items) => Some(unary(Head::Or, list(negations(items)))),
            None => None,
        },
        Head::Or => match junction_items(inner) {
            Some(items) => Some(unary(Head::And, list(negations(items)))),
            None => None,
        },
        _ => None,
    }
}

/// What a conjunction or disjunction simplifies to: `empty` if the matrix has no items, and the
/// only item of a matrix that has one.
pub open spec fn simplified_junction(junction: ExpressionView, empty: bool) -> Option<
    ExpressionView,
> {
    match junction_items(junction) {
        Some(items) => if items.len() == 0 {
            Some(truth(empty))
        } else if items.len() == 1 {
            Some(items[0])
        } else {
            None
        },
        None => None,
    }
}

/// What the logical operator at the root of an expression simplifies to by itself.
pub open spec fn simplified_logic(expression: ExpressionView) -> Option<ExpressionView> {
    match expression.head {
        Head::Not => if expression.operands.len() == 1 {
            simplified_negation(expression.operands[0])
        } else {
            None
        },
        Head::And => simplified_junction(expression, true),
        Head::Or => simplified_junction(expression, false),
        _ => None,
    }
}

/// One step of simplification: by the logical operator if that gives something, else to the
/// constant that the expression is, else by partial evaluation.
pub open spec fn simplification(
    expression: ExpressionView,
    constants: Constants,
    reductions: Reductions,
) -> Option<ExpressionView> {
    match simplified_logic(expression) {
        Some(replacement) => Some(replacement),
        None => match constants(expression) {
            Some(literal) => Some(constant(literal)),
            None => reductions(expression),
        },
    }
}

/// Simplifies the logical operator at the root of an expression by itself.
pub fn simplify_logic(expression: &Expression) -> (result: Option<Expression>)
    ensures
        optional_view(result) == simplified_logic(expression@),
{
    proof {
        lemma_expression_view(*expression);
    }
    match expression {
        Expression::Not(inner) => {
            proof {
                lemma_expression_view(**inner);
            }
            match &**inner {
                Expression::Atomic(Atom::Literal(Literal::Bool(value))) => Some(
                    Expression::literal(Literal::Bool(!*value)),
                ),
                Expression::Not(inner_inner) => Some((**inner_inner).clone()),
                Expression::And(terms) => match terms.unwrap_matrix_unchecked() {
                    Some((items, _)) => Some(Expression::Or(Box::new(negate_all(items)))),
                    None => None,
                },
                Expression::Or(terms) => match terms.unwrap_matrix_unchecked() {
                    Some((items, _)) => Some(Expression::And(Box::new(negate_all(items)))),
                    None => None,
                },
                _ => None,
            }
        },
        Expression::And(terms) => simplify_junction(terms, true),
        Expression::Or(terms) => simplify_junction(terms, false),
        _ => None,
    }
}

/// Simplifies the conjunction or disjunction of `terms`; of no terms it is `empty`.
fn simplify_junction(terms: &Expression, empty: bool) -> (result: Option<Expression>)
    ensures
        forall|junction: ExpressionView|
            junction.operands.len() == 1 && junction.operands[0] == terms@ ==> optional_view(result)
                == #[trigger] simplified_junction(junction, empty),
{
    match terms.unwrap_matrix_unchecked() {
        Some((items, _)) => if items.len() == 0 {
            Some(Expression::literal(Literal::Bool(empty)))
        } else if items.len() == 1 {
            Some(items[0].clone())
        } else {
            None
        },
        None => None,
    }
}

/// The list of the negations of some expressions.
fn negate_all(items: Vec<Expression>) -> (result: Expression)
    ensures
        result@ == list(negations(expression_views(items@))),
{
    let mut negated_items: Vec<Expression> = Vec::new();
    for i in 0..items.len()
        invariant
            negated_items@.len() == i,
            forall|k: int|
                0 <= k < i ==> (#[trigger] negated_items@[k])@ == negated(items@[k]@),
    {
        negated_items.push(Expression::Not(Box::new(items[i].clone())));
    }
    assert(expression_views(negated_items@) =~= negations(expression_views(items@)));
    Expression::list(negated_items)
}

/// What a literal says that may be missing.
pub open spec fn optional_literal(literal: Option<Literal>) -> Option<LiteralView> {
    match literal {
        Some(literal) => Some(literal@),
        None => None,
    }
}

/// `evaluator` may return `reply` on an expression that says `expression`.
pub open spec fn may_be_constant<E: Fn(&Expression) -> Option<Literal>>(
    evaluator: E,
    expression: ExpressionView,
    reply: Option<LiteralView>,
) -> bool {
    exists|x: &Expression, r: Option<Literal>|
        x@ == expression && #[trigger] call_ensures(evaluator, (x,), r) && reply
            == optional_literal(r)
}

/// `evaluator` may return `reply` on an expression that says `expression`.
pub open spec fn may_reduce_to<P: Fn(&Expression) -> Option<Expression>>(
    evaluator: P,
    expression: ExpressionView,
    reply: Option<ExpressionView>,
) -> bool {
    exists|x: &Expression, r: Option<Expression>|
        x@ == expression && #[trigger] call_ensures(evaluator, (x,), r) && reply == optional_view(r)
}

/// `evaluator` takes every expression, and what it returns is a matter of what the expression
/// says alone.
pub open spec fn evaluates<E: Fn(&Expression) -> Option<Literal>>(evaluator: E) -> bool {
    &&& forall|x: &Expression| call_requires(evaluator, (x,))
    &&& forall|x: ExpressionView, r: Option<LiteralView>, s: Option<LiteralView>|
        #[trigger] may_be_constant(evaluator, x, r) && #[trigger] may_be_constant(evaluator, x, s)
            ==> r == s
}

/// `evaluator` takes every expression, and what it returns is a matter of what the expression
/// says alone.
pub open spec fn reduces<P: Fn(&Expression) -> Option<Expression>>(evaluator: P) -> bool {
    &&& forall|x: &Expression| call_requires(evaluator, (x,))
    &&& forall|x: ExpressionView, r: Option<ExpressionView>, s: Option<ExpressionView>|
        #[trigger] may_reduce_to(evaluator, x, r) && #[trigger] may_reduce_to(evaluator, x, s)
            ==> r == s
}

/// What `evaluator` returns, for every expression; nothing, where it returns nothing at all.
pub open spec fn constants_of<E: Fn(&Expression) -> Option<Literal>>(evaluator: E) -> Constants {
    |x: ExpressionView|
        if exists|reply: Option<LiteralView>| may_be_constant(evaluator, x, reply) {
            choose|reply: Option<LiteralView>| may_be_constant(evaluator, x, reply)
        } else {
            None
        }
}

/// What `evaluator` returns, for every expression; nothing, where it returns nothing at all.
pub open spec fn reductions_of<P: Fn(&Expression) -> Option<Expression>>(
    evaluator: P,
) -> Reductions {
    |x: ExpressionView|
        if exists|reply: Option<ExpressionView>| may_reduce_to(evaluator, x, reply) {
            choose|reply: Option<ExpressionView>| may_reduce_to(evaluator, x, reply)
        } else {
            None
        }
}

/// [`simplification`] as a rule for rewriting.
pub open spec fn simplification_rule(constants: Constants, reductions: Reductions) -> Reductions {
    |x: ExpressionView| simplification(x, constants, reductions)
}

/// An expression after some passes of simplification.
pub open spec fn after_passes(
    expression: ExpressionView,
    constants: Constants,
    reductions: Reductions,
    passes: nat,
) -> ExpressionView
    decreases passes,
{
    if passes == 0 {
        expression
    } else {
        rewritten(
            after_passes(expression, constants, reductions, (passes - 1) as nat),
            simplification_rule(constants, reductions),
        )
    }
}

/// After so many passes, one more changes nothing.
pub open spec fn settled_after(
    expression: ExpressionView,
    constants: Constants,
    reductions: Reductions,
    passes: nat,
) -> bool {
    after_passes(expression, constants, reductions, passes + 1) == after_passes(
        expression,
        constants,
        reductions,
        passes,
    )
}

/// Simplification comes to an end on this expression.
pub open spec fn settles(
    expression: ExpressionView,
    constants: Constants,
    reductions: Reductions,
) -> bool {
    exists|passes: nat| settled_after(expression, constants, reductions, passes)
}

/// An expression after as many passes of simplification as change anything.
pub open spec fn simplified(
    expression: ExpressionView,
    constants: Constants,
    reductions: Reductions,
) -> ExpressionView {
    after_passes(
        expression,
        constants,
        reductions,
        choose|passes: nat| settled_after(expression, constants, reductions, passes),
    )
}

proof fn lemma_stays_settled(
    expression: ExpressionView,
    constants: Constants,
    reductions: Reductions,
    passes: nat,
    later: nat,
)
    requires
        settled_after(expression, constants, reductions, passes),
        passes <= later,
    ensures
        after_passes(expression, constants, reductions, later) == after_passes(
            expression,
            constants,
            reductions,
            passes,
        ),
    decreases later - passes,
{
    if passes < later {
        lemma_stays_settled(expression, constants, reductions, passes, (later - 1) as nat);
    }
}

/// However many passes it takes until an expression changes no more, what it then is is what it
/// simplifies to.
pub proof fn law_settled_passes_give_simplified(
    expression: ExpressionView,
    constants: Constants,
    reductions: Reductions,
    passes: nat,
)
    requires
        settled_after(expression, constants, reductions, passes),
    ensures
        simplified(expression, constants, reductions) == after_passes(
            expression,
            constants,
            reductions,
            passes,
        ),
{
    let other = choose|passes: nat| settled_after(expression, constants, reductions, passes);
    if other <= passes {
        lemma_stays_settled(expression, constants, reductions, other, passes);
    } else {
        lemma_stays_settled(expression, constants, reductions, passes, other);
    }
}

/// A simplified expression is left as it is by one more pass, and by simplification as a whole.
pub proof fn law_simplified_is_stable(
    expression: ExpressionView,
    constants: Constants,
    reductions: Reductions,
)
    requires
        settles(expression, constants, reductions),
    ensures
        rewritten(
            simplified(expression, constants, reductions),
            simplification_rule(constants, reductions),
        ) == simplified(expression, constants, reductions),
        settles(simplified(expression, constants, reductions), constants, reductions),
        simplified(simplified(expression, constants, reductions), constants, reductions)
            == simplified(expression, constants, reductions),
{
    let passes = choose|passes: nat| settled_after(expression, constants, reductions, passes);
    let result = simplified(expression, constants, reductions);
    assert(after_passes(expression, constants, reductions, passes + 1) == rewritten(
        result,
        simplification_rule(constants, reductions),
    ));
    assert(after_passes(result, constants, reductions, 0) == result);
    assert(after_passes(result, constants, reductions, 1) == result);
    assert(settled_after(result, constants, reductions, 0));
    law_settled_passes_give_simplified(result, constants, reductions, 0);
}

/// One step of simplification, at the root of an expression.
fn simplify_node<E, P>(
    expression: &Expression,
    eval_constant: &E,
    run_partial_evaluator: &P,
) -> (result: Option<Expression>) where
    E: Fn(&Expression) -> Option<Literal>,
    P: Fn(&Expression) -> Option<Expression>,

    requires
        evaluates(*eval_constant),
        reduces(*run_partial_evaluator),
    ensures
        optional_view(result) == simplification(
            expression@,
            constants_of(*eval_constant),
            reductions_of(*run_partial_evaluator),
        ),
{
    if let Some(replacement) = simplify_logic(expression) {
        return Some(replacement);
    }
    let literal = eval_constant(expression);
    assert(may_be_constant(*eval_constant, expression@, optional_literal(literal)));
    if let Some(literal) = literal {
        return Some(Expression::literal(literal));
    }
    let reduction = run_partial_evaluator(expression);
    assert(may_reduce_to(*run_partial_evaluator, expression@, optional_view(reduction)));
    reduction
}

/// Simplifies an expression, pass by pass, until a pass changes nothing. Where the logical
/// operators give nothing, `eval_constant` and then `run_partial_evaluator` are asked.
pub fn simplify_expression_for_minion<E, P>(
    expr: Expression,
    eval_constant: &E,
    run_partial_evaluator: &P,
) -> (result: Expression) where
    E: Fn(&Expression) -> Option<Literal>,
    P: Fn(&Expression) -> Option<Expression>,

    requires
        evaluates(*eval_constant),
        reduces(*run_partial_evaluator),
        settles(expr@, constants_of(*eval_constant), reductions_of(*run_partial_evaluator)),
    ensures
        result@ == simplified(
            expr@,
            constants_of(*eval_constant),
            reductions_of(*run_partial_evaluator),
        ),
{
    let ghost constants = constants_of(*eval_constant);
    let ghost reductions = reductions_of(*run_partial_evaluator);
    let rule = |x: &Expression| -> (reply: Option<Expression>)
        ensures
            optional_view(reply) == simplification(
                x@,
                constants_of(*eval_constant),
                reductions_of(*run_partial_evaluator),
            ),
        { simplify_node(x, eval_constant, run_partial_evaluator) };
    let ghost last = choose|passes: nat| settled_after(expr@, constants, reductions, passes);
    let ghost mut done: nat = 0;
    let ghost start = expr@;
    let mut current = expr;
    loop
        invariant
            settled_after(start, constants, reductions, last),
            done <= last,
            current@ == after_passes(start, constants, reductions, done),
            forall|x: &Expression| call_requires(rule, (x,)),
            forall|x: &Expression, r: Option<Expression>|
                call_ensures(rule, (x,), r) ==> optional_view(r) == simplification_rule(
                    constants,
                    reductions,
                )(x@),
        ensures
            current@ == simplified(start, constants, reductions),
        decreases last - done,
    {
        let next = rewrite(&current, &rule, Ghost(simplification_rule(constants, reductions)));
        assert(next@ == after_passes(start, constants, reductions, done + 1));
        if next.same(&current) {
            proof {
                law_settled_passes_give_simplified(start, constants, reductions, done);
            }
            break;
        }
        proof {
            if done == last {
                assert(false);
            }
            done = done + 1;
        }
        current = next;
    }
    current
}

} // verus!
