//! Dominance: the constraint that a solution, once found, puts on the solutions after it.
use crate::expression::{
    constant, leaf, negated, optional_view, Atom, AtomView, Expression, ExpressionView,
    GroundDomain, Head, Literal, LiteralView, ReferenceView,
};
use crate::name::NameView;
use crate::rewrite::{rewrite, rewritten};
use crate::simplify::{
    constants_of, evaluates, reduces, reductions_of, settles, simplified,
    simplify_expression_for_minion, Constants, Reductions,
};
use crate::solution::Solution;
use vstd::prelude::*;

verus! {

/// The value that a solution gives to a reference. A reference over the Booleans takes a Boolean,
/// or one of the integers 0 and 1 in its place, and no other value.
pub open spec fn value_in(
    reference: ReferenceView,
    solution: Map<NameView, LiteralView>,
) -> Option<LiteralView> {
    if !solution.dom().contains(reference.name) {
        None
    } else {
        let value = solution[reference.name];
        if reference.domain == Some(GroundDomain::Bool) {
            match value {
                LiteralView::Bool(_) => Some(value),
                LiteralView::Int(n) => if n == 1 {
                    Some(LiteralView::Bool(true))
                } else if n == 0 {
                    Some(LiteralView::Bool(false))
                } else {
                    None
                },
                _ => None,
            }
        } else {
            Some(value)
        }
    }
}

/// What stands in place of an expression that is a reference with a value in a solution.
pub open spec fn substituted(
    expression: ExpressionView,
    solution: Map<NameView, LiteralView>,
) -> Option<ExpressionView> {
    match expression.head {
        Head::Atomic(AtomView::Reference(reference)) => match value_in(reference, solution) {
            Some(value) => Some(constant(value)),
            None => None,
        },
        _ => None,
    }
}

/// Replaces a reference by the value that a solution gives to it; `None` where the expression is
/// no reference, or the solution has no value for it.
pub fn sub_in_solution_into_current_refs(expr: &Expression, solution: &Solution) -> (result: Option<
    Expression,
>)
    requires
        solution.wf(),
    ensures
        optional_view(result) == substituted(expr@, solution@),
{
    match expr {
        Expression::Atomic(Atom::Reference(reference)) => {
            let value = match solution.get(&reference.name) {
                Some(value) => value,
                None => return None,
            };
            let value = match &reference.domain {
                Some(GroundDomain::Bool) => match value {
                    Literal::Bool(x) => Literal::Bool(*x),
                    Literal::Int(1) => Literal::Bool(true),
                    Literal::Int(0) => Literal::Bool(false),
                    _ => return None,
                },
                _ => value.clone(),
            };
            Some(Expression::Atomic(Atom::Literal(value)))
        },
        _ => None,
    }
}

/// What stands in place of an expression that asks for a value of a solution found before.
pub open spec fn swapped(expression: ExpressionView) -> Option<ExpressionView> {
    match expression.head {
        Head::FromSolution(atom) => Some(leaf(Head::Atomic(atom))),
        _ => None,
    }
}

/// Replaces an expression that asks for a value of a solution found before by the atom itself;
/// `None` where the expression asks for no such value.
pub fn swap_from_solution_to_current_ref(expr: &Expression) -> (result: Option<Expression>)
    ensures
        optional_view(result) == swapped(expr@),
{
    match expr {
        Expression::FromSolution(atom) => Some(Expression::Atomic(atom.clone())),
        _ => None,
    }
}

/// [`substituted`] as a rule for rewriting.
pub open spec fn substitution_rule(solution: Map<NameView, LiteralView>) -> Reductions {
    |x: ExpressionView| substituted(x, solution)
}

/// [`swapped`] as a rule for rewriting.
pub open spec fn swap_rule() -> Reductions {
    |x: ExpressionView| swapped(x)
}

/// A dominance relation between a solution, which gives the references in it their values, and a
/// solution yet to be found, which the values from a solution become references to.
pub open spec fn dominated(
    dominance: ExpressionView,
    solution: Map<NameView, LiteralView>,
) -> ExpressionView {
    rewritten(rewritten(dominance, substitution_rule(solution)), swap_rule())
}

/// That a solution yet to be found is not dominated by `solution`, in simplified form.
pub open spec fn blocker(
    dominance: ExpressionView,
    solution: Map<NameView, LiteralView>,
    constants: Constants,
    reductions: Reductions,
) -> ExpressionView {
    simplified(negated(dominated(dominance, solution)), constants, reductions)
}

/// Makes the expression that keeps out the solutions that `solution` dominates.
pub fn dominance_blocker<E, P>(
    dominance: &Expression,
    solution: &Solution,
    eval_constant: &E,
    run_partial_evaluator: &P,
) -> (result: Expression) where
    E: Fn(&Expression) -> Option<Literal>,
    P: Fn(&Expression) -> Option<Expression>,

    requires
        solution.wf(),
        evaluates(*eval_constant),
        reduces(*run_partial_evaluator),
        settles(
            negated(dominated(dominance@, solution@)),
            constants_of(*eval_constant),
            reductions_of(*run_partial_evaluator),
        ),
    ensures
        result@ == blocker(
            dominance@,
            solution@,
            constants_of(*eval_constant),
            reductions_of(*run_partial_evaluator),
        ),
{
    let substitute = |x: &Expression| -> (reply: Option<Expression>)
        ensures
            optional_view(reply) == substituted(x@, solution@),
        { sub_in_solution_into_current_refs(x, solution) };
    let swap = |x: &Expression| -> (reply: Option<Expression>)
        ensures
            optional_view(reply) == swapped(x@),
        { swap_from_solution_to_current_ref(x) };
    let valued = rewrite(dominance, &substitute, Ghost(substitution_rule(solution@)));
    let current = rewrite(&valued, &swap, Ghost(swap_rule()));
    simplify_expression_for_minion(
        Expression::Not(Box::new(current)),
        eval_constant,
        run_partial_evaluator,
    )
}

} // verus!
