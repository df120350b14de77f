//! What simplification does to each expression, rule by rule and pass by pass.
use crate::expression::{
    constant, leaf, list, matrix_parts, negated, truth, unary, AtomView, Expression,
    ExpressionView, GroundDomain, Head, Literal, LiteralView,
};
use crate::rewrite::{all_rewritten, rewritten};
use crate::simplify::{
    after_passes, constants_of, evaluates, may_be_constant, may_reduce_to, reduces,
    reductions_of, settled_after, settles, simplification, simplification_rule, simplified,
    simplified_logic, Constants, Reductions,
};
use vstd::prelude::*;

verus! {

/// What expressions are built as: a literal, a negation, and a list, whose index domain is that of
/// the integers from 1 on.
pub proof fn law_what_is_built(
    head: Head,
    literal: LiteralView,
    value: bool,
    operand: ExpressionView,
    items: Seq<ExpressionView>,
)
    ensures
        leaf(head) == (ExpressionView { head, operands: Seq::empty() }),
        unary(head, operand) == (ExpressionView { head, operands: seq![operand] }),
        constant(literal) == (ExpressionView {
            head: Head::Atomic(AtomView::Literal(literal)),
            operands: Seq::empty(),
        }),
        truth(value) == (ExpressionView {
            head: Head::Atomic(AtomView::Literal(LiteralView::Bool(value))),
            operands: Seq::empty(),
        }),
        negated(operand) == (ExpressionView { head: Head::Not, operands: seq![operand] }),
        list(items) == (ExpressionView {
            head: Head::Matrix(GroundDomain::Int { lower: Some(1), upper: None }),
            operands: items,
        }),
{
}

/// Each of some expressions is the literal in its place.
pub open spec fn are_literals(items: Seq<ExpressionView>, literals: Seq<LiteralView>) -> bool {
    &&& items.len() == literals.len()
    &&& forall|i: int|
        0 <= i < literals.len() ==> #[trigger] items[i] == (ExpressionView {
            head: Head::Atomic(AtomView::Literal(literals[i])),
            operands: Seq::empty(),
        })
}

/// The items of a matrix are all its items in order, be it a matrix of expressions or one of
/// literals, with its index domain; nothing else has items.
pub proof fn law_items_of_a_matrix(expression: ExpressionView)
    ensures
        match expression.head {
            Head::Matrix(index) => matrix_parts(expression) == Some((expression.operands, index)),
            Head::Atomic(AtomView::Literal(LiteralView::Matrix(literals, index))) => {
                &&& matrix_parts(expression) is Some
                &&& matrix_parts(expression).unwrap().1 == index
                &&& are_literals(matrix_parts(expression).unwrap().0, literals)
            },
            _ => matrix_parts(expression) is None,
        },
{
}

/// Each of some expressions is the negation of the one in its place.
pub open spec fn are_negations(
    negations: Seq<ExpressionView>,
    items: Seq<ExpressionView>,
) -> bool {
    &&& negations.len() == items.len()
    &&& forall|i: int|
        0 <= i < items.len() ==> #[trigger] negations[i] == (ExpressionView {
            head: Head::Not,
            operands: seq![items[i]],
        })
}

/// `junction` has this head over a list of the negations of `items`, in order.
pub open spec fn is_junction_of_negations(
    junction: ExpressionView,
    head: Head,
    items: Seq<ExpressionView>,
) -> bool {
    &&& junction.head == head
    &&& junction.operands.len() == 1
    &&& junction.operands[0].head == Head::Matrix(
        GroundDomain::Int { lower: Some(1), upper: None },
    )
    &&& are_negations(junction.operands[0].operands, items)
}

/// What a negation simplifies to by itself, for everything that can be negated: the other truth
/// value, what a negation negates, the disjunction of the negations for a conjunction over a
/// matrix, the conjunction of the negations for a disjunction, and nothing for all else.
pub proof fn law_negations_simplify(inner: ExpressionView)
    ensures
        ({
            let result = simplified_logic(
                ExpressionView { head: Head::Not, operands: seq![inner] },
            );
            match inner.head {
                Head::Atomic(AtomView::Literal(LiteralView::Bool(value))) => result == Some(
                    ExpressionView {
                        head: Head::Atomic(AtomView::Literal(LiteralView::Bool(!value))),
                        operands: Seq::empty(),
                    },
                ),
                Head::Not => result == if inner.operands.len() == 1 {
                    Some(inner.operands[0])
                } else {
                    None
                },
                Head::And => if inner.operands.len() == 1 && matrix_parts(
                    inner.operands[0],
                ) is Some {
                    result is Some && is_junction_of_negations(
                        result.unwrap(),
                        Head::Or,
                        matrix_parts(inner.operands[0]).unwrap().0,
                    )
                } else {
                    result is None
                },
                Head::Or => if inner.operands.len() == 1 && matrix_parts(
                    inner.operands[0],
                ) is Some {
                    result is Some && is_junction_of_negations(
                        result.unwrap(),
                        Head::And,
                        matrix_parts(inner.operands[0]).unwrap().0,
                    )
                } else {
                    result is None
                },
                _ => result is None,
            }
        }),
{
}

/// What a conjunction or a disjunction simplifies to by itself: over a matrix without items, true
/// or false; over a matrix of one item, the item; nothing over any other matrix, and nothing over
/// anything but a matrix.
pub proof fn law_junctions_simplify(head: Head, operand: ExpressionView)
    requires
        head is And || head is Or,
    ensures
        ({
            let result = simplified_logic(ExpressionView { head, operands: seq![operand] });
            match matrix_parts(operand) {
                Some((items, _)) => if items.len() == 0 {
                    result == Some(
                        ExpressionView {
                            head: Head::Atomic(
                                AtomView::Literal(LiteralView::Bool(head is And)),
                            ),
                            operands: Seq::empty(),
                        },
                    )
                } else if items.len() == 1 {
                    result == Some(items[0])
                } else {
                    result is None
                },
                None => result is None,
            }
        }),
{
}

/// Nothing but negations, conjunctions and disjunctions of one operand simplifies by itself.
pub proof fn law_other_operators_stay(expression: ExpressionView)
    requires
        !(expression.head is Not || expression.head is And || expression.head is Or)
            || expression.operands.len() != 1,
    ensures
        simplified_logic(expression) is None,
{
}

/// One step of simplification goes by the logical operator if that gives something, else to the
/// constant that the expression is, else by partial evaluation.
pub proof fn law_order_of_a_step(
    expression: ExpressionView,
    constants: Constants,
    reductions: Reductions,
)
    ensures
        simplified_logic(expression) is Some ==> simplification(expression, constants, reductions)
            == simplified_logic(expression),
        simplified_logic(expression) is None ==> match constants(expression) {
            Some(literal) => simplification(expression, constants, reductions) == Some(
                ExpressionView {
                    head: Head::Atomic(AtomView::Literal(literal)),
                    operands: Seq::empty(),
                },
            ),
            None => simplification(expression, constants, reductions) == reductions(expression),
        },
        simplification_rule(constants, reductions)(expression) == simplification(
            expression,
            constants,
            reductions,
        ),
{
}

/// What the evaluators are taken to say of an expression is what they reply when they are asked.
pub proof fn law_evaluators_are_taken_at_their_word<E, P>(
    eval_constant: E,
    run_partial_evaluator: P,
    expression: &Expression,
    literal: Option<Literal>,
    reduction: Option<Expression>,
) where
    E: Fn(&Expression) -> Option<Literal>,
    P: Fn(&Expression) -> Option<Expression>,

    requires
        evaluates(eval_constant),
        reduces(run_partial_evaluator),
        call_ensures(eval_constant, (expression,), literal),
        call_ensures(run_partial_evaluator, (expression,), reduction),
    ensures
        constants_of(eval_constant)(expression@) == match literal {
            Some(literal) => Some(literal@),
            None => None,
        },
        reductions_of(run_partial_evaluator)(expression@) == match reduction {
            Some(reduction) => Some(reduction@),
            None => None,
        },
{
    let said = match literal {
        Some(literal) => Some(literal@),
        None => None,
    };
    let reduced = match reduction {
        Some(reduction) => Some(reduction@),
        None => None,
    };
    assert(may_be_constant(eval_constant, expression@, said));
    assert(may_reduce_to(run_partial_evaluator, expression@, reduced));
}

/// `node` is `expression` with each operand rewritten, in its place.
pub open spec fn has_rewritten_operands(
    node: ExpressionView,
    expression: ExpressionView,
    rule: Reductions,
) -> bool {
    &&& node.head == expression.head
    &&& node.operands.len() == expression.operands.len()
    &&& forall|i: int|
        0 <= i < node.operands.len() ==> #[trigger] node.operands[i] == rewritten(
            expression.operands[i],
            rule,
        )
}

/// A pass of a rule goes from the leaves to the root: it leaves what the rule makes of the
/// expression over its rewritten operands, or just that expression where the rule makes nothing
/// of it.
pub proof fn law_a_pass_goes_from_the_leaves_to_the_root(
    expression: ExpressionView,
    rule: Reductions,
)
    ensures
        exists|node: ExpressionView|
            {
                &&& #[trigger] has_rewritten_operands(node, expression, rule)
                &&& rewritten(expression, rule) == match rule(node) {
                    Some(replacement) => replacement,
                    None => node,
                }
            },
{
    let node = ExpressionView {
        head: expression.head,
        operands: all_rewritten(expression.operands, rule),
    };
    assert(has_rewritten_operands(node, expression, rule));
}

/// Each of these expressions is what a pass makes of the one before, the first is `expression`,
/// and a pass leaves the last as it is.
pub open spec fn are_passes(
    steps: Seq<ExpressionView>,
    expression: ExpressionView,
    rule: Reductions,
) -> bool {
    &&& steps.len() > 0
    &&& steps[0] == expression
    &&& forall|i: int|
        0 <= i < steps.len() - 1 ==> steps[i + 1] == rewritten(#[trigger] steps[i], rule)
    &&& rewritten(steps.last(), rule) == steps.last()
}

/// What an expression simplifies to is reached by passes, and left as it is by one more.
pub proof fn law_simplified_is_reached_by_passes(
    expression: ExpressionView,
    constants: Constants,
    reductions: Reductions,
    rule: Reductions,
)
    requires
        settles(expression, constants, reductions),
        forall|x: ExpressionView| #[trigger]
            rule(x) == simplification(x, constants, reductions),
    ensures
        exists|steps: Seq<ExpressionView>|
            #[trigger] are_passes(steps, expression, rule) && simplified(
                expression,
                constants,
                reductions,
            ) == steps.last(),
{
    let own = simplification_rule(constants, reductions);
    assert(rule =~= own);
    let passes = choose|passes: nat| settled_after(expression, constants, reductions, passes);
    let steps = Seq::new(
        passes + 1,
        |i: int| after_passes(expression, constants, reductions, i as nat),
    );
    assert forall|i: int| 0 <= i < steps.len() - 1 implies steps[i + 1] == rewritten(
        #[trigger] steps[i],
        rule,
    ) by {
        assert(((i + 1) as nat - 1) as nat == i as nat);
    }
    assert(after_passes(expression, constants, reductions, passes + 1) == rewritten(
        after_passes(expression, constants, reductions, passes),
        own,
    ));
    assert(are_passes(steps, expression, rule));
}

} // verus!
