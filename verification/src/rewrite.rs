//! Rewriting: one pass of a rule over an expression, from the leaves to the root.
use crate::expression::{lemma_expression_view, optional_view, Expression, ExpressionView};
use vstd::prelude::*;

verus! {

/// One pass of `rule` over an expression: the operands are rewritten first, then the rule is
/// tried once on the expression over the rewritten operands. What the rule returns is not
/// rewritten again in this pass.
pub open spec fn rewritten(
    expression: ExpressionView,
    rule: spec_fn(ExpressionView) -> Option<ExpressionView>,
) -> ExpressionView
    decreases expression,
{
    let node = ExpressionView {
        head: expression.head,
        operands: all_rewritten(expression.operands, rule),
    };
    match rule(node) {
        Some(replacement) => replacement,
        None => node,
    }
}

/// Each of some expressions, [`rewritten`].
pub open spec fn all_rewritten(
    items: Seq<ExpressionView>,
    rule: spec_fn(ExpressionView) -> Option<ExpressionView>,
) -> Seq<ExpressionView>
    decreases items,
{
    Seq::new(
        items.len(),
        |i: int| if 0 <= i < items.len() { rewritten(items[i], rule) } else { arbitrary() },
    )
}

/// Applies a rule over an expression, as [`rewritten`] says; `meaning` is what the rule does.
pub(crate) fn rewrite<F: Fn(&Expression) -> Option<Expression>>(
    expression: &Expression,
    rule: &F,
    Ghost(meaning): Ghost<spec_fn(ExpressionView) -> Option<ExpressionView>>,
) -> (result: Expression)
    requires
        forall|x: &Expression| call_requires(*rule, (x,)),
        forall|x: &Expression, r: Option<Expression>|
            call_ensures(*rule, (x,), r) ==> optional_view(r) == meaning(x@),
    ensures
        result@ == rewritten(expression@, meaning),
    decreases expression,
{
    proof {
        lemma_expression_view(*expression);
    }
    let node = match expression {
        Expression::Atomic(atom) => Expression::Atomic(atom.clone()),
        Expression::FromSolution(atom) => Expression::FromSolution(atom.clone()),
        Expression::Matrix(items, index) => Expression::Matrix(
            rewrite_all(items, rule, Ghost(meaning)),
            *index,
        ),
        Expression::Not(x) => Expression::Not(Box::new(rewrite(x, rule, Ghost(meaning)))),
        Expression::And(x) => Expression::And(Box::new(rewrite(x, rule, Ghost(meaning)))),
        Expression::Or(x) => Expression::Or(Box::new(rewrite(x, rule, Ghost(meaning)))),
        Expression::Imply(x, y) => Expression::Imply(
            Box::new(rewrite(x, rule, Ghost(meaning))),
            Box::new(rewrite(y, rule, Ghost(meaning))),
        ),
        Expression::DominanceRelation(x) => Expression::DominanceRelation(
            Box::new(rewrite(x, rule, Ghost(meaning))),
        ),
        Expression::Operation(operator, operands) => Expression::Operation(
            *operator,
            rewrite_all(operands, rule, Ghost(meaning)),
        ),
    };
    proof {
        lemma_expression_view(node);
        assert(node@.operands =~= all_rewritten(expression@.operands, meaning));
    }
    match rule(&node) {
        Some(replacement) => replacement,
        None => node,
    }
}

fn rewrite_all<F: Fn(&Expression) -> Option<Expression>>(
    items: &Vec<Expression>,
    rule: &F,
    Ghost(meaning): Ghost<spec_fn(ExpressionView) -> Option<ExpressionView>>,
) -> (results: Vec<Expression>)
    requires
        forall|x: &Expression| call_requires(*rule, (x,)),
        forall|x: &Expression, r: Option<Expression>|
            call_ensures(*rule, (x,), r) ==> optional_view(r) == meaning(x@),
    ensures
        results@.len() == items@.len(),
        forall|k: int|
            0 <= k < items@.len() ==> (#[trigger] results@[k])@ == rewritten(items@[k]@, meaning),
    decreases items,
{
    let mut results: Vec<Expression> = Vec::new();
    for i in 0..items.len()
        invariant
            forall|x: &Expression| call_requires(*rule, (x,)),
            forall|x: &Expression, r: Option<Expression>|
                call_ensures(*rule, (x,), r) ==> optional_view(r) == meaning(x@),
            results@.len() == i,
            forall|k: int|
                0 <= k < i ==> (#[trigger] results@[k])@ == rewritten(items@[k]@, meaning),
    {
        assert(decreases_to!(items => items@[i as int]));
        results.push(rewrite(&items[i], rule, Ghost(meaning)));
    }
    results
}

} // verus!
