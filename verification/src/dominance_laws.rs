//! What a dominance constraint is made of.
use crate::dominance::{dominated, substituted, substitution_rule, swap_rule, value_in};
use crate::expression::{AtomView, ExpressionView, Head, LiteralView};
use crate::name::NameView;
use crate::rewrite::{all_rewritten, rewritten};
use vstd::prelude::*;

verus! {

/// What stands at the root of an expression, and at the root of everything in it, is `allowed`.
pub open spec fn everywhere(expression: ExpressionView, allowed: spec_fn(Head) -> bool) -> bool
    decreases expression,
{
    &&& allowed(expression.head)
    &&& forall|i: int|
        0 <= i < expression.operands.len() ==> everywhere(
            #[trigger] expression.operands[i],
            allowed,
        )
}

/// Anything but a value from a solution found before.
pub open spec fn not_stored() -> spec_fn(Head) -> bool {
    |head: Head| !(head is FromSolution)
}

/// Anything but a reference to which a solution gives a value.
pub open spec fn not_valued(solution: Map<NameView, LiteralView>) -> spec_fn(Head) -> bool {
    |head: Head|
        match head {
            Head::Atomic(AtomView::Reference(reference)) => value_in(reference, solution) is None,
            _ => true,
        }
}

proof fn lemma_swapped_everywhere(expression: ExpressionView)
    ensures
        everywhere(rewritten(expression, swap_rule()), not_stored()),
    decreases expression,
{
    let after = all_rewritten(expression.operands, swap_rule());
    let result = rewritten(expression, swap_rule());
    assert forall|i: int| 0 <= i < after.len() implies everywhere(
        #[trigger] after[i],
        not_stored(),
    ) by {
        lemma_swapped_everywhere(expression.operands[i]);
    }
    if expression.head is FromSolution {
        assert(result.operands.len() == 0);
    } else {
        assert(result == (ExpressionView { head: expression.head, operands: after }));
    }
}

/// The dominance relation between a solution and one yet to be found asks for no value from a
/// solution found before.
pub proof fn law_no_stored_value_is_left(
    dominance: ExpressionView,
    solution: Map<NameView, LiteralView>,
)
    ensures
        everywhere(dominated(dominance, solution), not_stored()),
{
    lemma_swapped_everywhere(rewritten(dominance, substitution_rule(solution)));
}

/// Once a solution is put in, no reference is left to which it gives a value.
pub proof fn law_no_valued_reference_is_left(
    expression: ExpressionView,
    solution: Map<NameView, LiteralView>,
)
    ensures
        everywhere(rewritten(expression, substitution_rule(solution)), not_valued(solution)),
    decreases expression,
{
    let rule = substitution_rule(solution);
    let after = all_rewritten(expression.operands, rule);
    let node = ExpressionView { head: expression.head, operands: after };
    let result = rewritten(expression, rule);
    assert forall|i: int| 0 <= i < after.len() implies everywhere(
        #[trigger] after[i],
        not_valued(solution),
    ) by {
        law_no_valued_reference_is_left(expression.operands[i], solution);
    }
    if substituted(node, solution) is Some {
        assert(result.operands.len() == 0);
    } else {
        assert(result == node);
    }
}

/// A solution is put in for references to which it gives a value and for nothing else. In
/// particular, what is asked of a solution found before stays as it is.
pub proof fn law_solution_goes_into_references_only(
    expression: ExpressionView,
    solution: Map<NameView, LiteralView>,
)
    requires
        everywhere(expression, not_valued(solution)),
    ensures
        rewritten(expression, substitution_rule(solution)) == expression,
    decreases expression,
{
    let rule = substitution_rule(solution);
    let after = all_rewritten(expression.operands, rule);
    assert forall|i: int| 0 <= i < after.len() implies #[trigger] after[i]
        == expression.operands[i] by {
        law_solution_goes_into_references_only(expression.operands[i], solution);
    }
    assert(after =~= expression.operands);
    assert(not_valued(solution)(expression.head));
}

} // verus!
