//! Why simplification comes to an end.
use crate::expression::{
    constant, constants, list, matrix_parts, negated, unary, AtomView, ExpressionView, Head,
    LiteralView,
};
use crate::rewrite::{all_rewritten, rewritten};
use crate::simplify::{
    after_passes, junction_items, law_simplified_is_stable, negations, settled_after, settles,
    simplification_rule, simplified, simplified_logic, Constants, Reductions,
};
use vstd::prelude::*;

verus! {

/// The number of parts of a literal.
pub open spec fn literal_bulk(literal: LiteralView) -> nat
    decreases literal,
{
    match literal {
        LiteralView::Matrix(items, _) => 1 + literal_bulks(items),
        LiteralView::Collection(_, items) => 1 + literal_bulks(items),
        _ => 1,
    }
}

/// The number of parts of some literals.
pub open spec fn literal_bulks(items: Seq<LiteralView>) -> nat
    decreases items,
{
    if items.len() == 0 {
        0
    } else {
        literal_bulks(items.drop_last()) + literal_bulk(items.last())
    }
}

/// An expression that is a negation.
pub open spec fn is_negation(expression: ExpressionView) -> bool {
    expression.head is Not && expression.operands.len() == 1
}

/// What the root of an expression adds to its bulk.
pub open spec fn root_bulk(head: Head) -> nat {
    match head {
        Head::Atomic(AtomView::Literal(literal)) => literal_bulk(literal),
        Head::Matrix(_) => 1,
        _ => 2,
    }
}

/// The size of an expression, negations not counted.
pub open spec fn bulk(expression: ExpressionView) -> nat
    decreases expression,
{
    if is_negation(expression) {
        bulk(expression.operands[0])
    } else {
        root_bulk(expression.head) + bulks(expression.operands)
    }
}

/// The size of some expressions, negations not counted.
pub open spec fn bulks(items: Seq<ExpressionView>) -> nat
    decreases items,
{
    if items.len() == 0 {
        0
    } else {
        bulks(items.drop_last()) + bulk(items.last())
    }
}

/// The bulk of what the negations in an expression negate, taken together.
pub open spec fn burden(expression: ExpressionView) -> nat
    decreases expression,
{
    (if is_negation(expression) {
        bulk(expression.operands[0])
    } else {
        0
    }) + burdens(expression.operands)
}

/// The bulk of what the negations in some expressions negate, taken together.
pub open spec fn burdens(items: Seq<ExpressionView>) -> nat
    decreases items,
{
    if items.len() == 0 {
        0
    } else {
        burdens(items.drop_last()) + burden(items.last())
    }
}

/// `after` has less bulk than `before`, or as much bulk and less burden.
pub open spec fn lighter(after: ExpressionView, before: ExpressionView) -> bool {
    bulk(after) < bulk(before) || (bulk(after) == bulk(before) && burden(after) < burden(before))
}

/// Whatever a rule replaces, it replaces by something lighter or leaves as it is.
pub open spec fn lightens(rule: Reductions) -> bool {
    forall|x: ExpressionView| #[trigger]
        rule(x) matches Some(replacement) ==> replacement == x || lighter(replacement, x)
}

proof fn lemma_bulk_positive(expression: ExpressionView)
    ensures
        bulk(expression) >= 1,
    decreases expression,
{
    if is_negation(expression) {
        lemma_bulk_positive(expression.operands[0]);
    }
}

proof fn lemma_unary(head: Head, operand: ExpressionView)
    ensures
        bulks(unary(head, operand).operands) == bulk(operand),
        burdens(unary(head, operand).operands) == burden(operand),
{
    lemma_single(seq![operand]);
}

proof fn lemma_single(items: Seq<ExpressionView>)
    requires
        items.len() == 1,
    ensures
        bulks(items) == bulk(items[0]),
        burdens(items) == burden(items[0]),
{
    assert(items.drop_last().len() == 0);
    assert(bulks(items.drop_last()) == 0);
    assert(burdens(items.drop_last()) == 0);
}

proof fn lemma_negated(expression: ExpressionView)
    ensures
        bulk(negated(expression)) == bulk(expression),
        burden(negated(expression)) == bulk(expression) + burden(expression),
{
    lemma_unary(Head::Not, expression);
    assert(is_negation(negated(expression)));
}

proof fn lemma_negations(items: Seq<ExpressionView>)
    ensures
        bulks(negations(items)) == bulks(items),
        burdens(negations(items)) == bulks(items) + burdens(items),
    decreases items.len(),
{
    if items.len() > 0 {
        lemma_negations(items.drop_last());
        assert(negations(items).drop_last() =~= negations(items.drop_last()));
        lemma_negated(items.last());
        assert(negations(items).last() == negated(items.last()));
    }
}

proof fn lemma_constant(literal: LiteralView)
    ensures
        bulk(constant(literal)) == literal_bulk(literal),
        burden(constant(literal)) == 0,
{
    assert(bulks(constant(literal).operands) == 0);
    assert(burdens(constant(literal).operands) == 0);
}

proof fn lemma_constants(literals: Seq<LiteralView>)
    ensures
        bulks(constants(literals)) == literal_bulks(literals),
        burdens(constants(literals)) == 0,
    decreases literals.len(),
{
    if literals.len() > 0 {
        lemma_constants(literals.drop_last());
        assert(constants(literals).drop_last() =~= constants(literals.drop_last()));
        lemma_constant(literals.last());
        assert(constants(literals).last() == constant(literals.last()));
    }
}

/// The items of a matrix have less bulk than the matrix, and no more burden.
proof fn lemma_matrix_parts(matrix: ExpressionView)
    requires
        matrix_parts(matrix) is Some,
    ensures
        1 + bulks(matrix_parts(matrix).unwrap().0) <= bulk(matrix),
        burdens(matrix_parts(matrix).unwrap().0) <= burden(matrix),
{
    match matrix.head {
        Head::Atomic(AtomView::Literal(LiteralView::Matrix(items, _))) => {
            lemma_constants(items);
        },
        _ => {},
    }
}

proof fn lemma_junction_items(junction: ExpressionView)
    requires
        junction_items(junction) is Some,
        junction.head is And || junction.head is Or,
    ensures
        3 + bulks(junction_items(junction).unwrap()) <= bulk(junction),
        burdens(junction_items(junction).unwrap()) <= burden(junction),
{
    lemma_single(junction.operands);
    lemma_matrix_parts(junction.operands[0]);
}

proof fn lemma_list(head: Head, items: Seq<ExpressionView>)
    requires
        head is And || head is Or,
    ensures
        bulk(unary(head, list(items))) == 3 + bulks(items),
        burden(unary(head, list(items))) == burdens(items),
{
    lemma_unary(head, list(items));
}

/// The logical operators simplify to something lighter.
proof fn lemma_logic_lightens(x: ExpressionView)
    requires
        simplified_logic(x) is Some,
    ensures
        lighter(simplified_logic(x).unwrap(), x),
{
    match x.head {
        Head::Not => {
            let inner = x.operands[0];
            lemma_single(x.operands);
            lemma_bulk_positive(inner);
            match inner.head {
                Head::Not => {
                    lemma_single(inner.operands);
                    lemma_bulk_positive(inner.operands[0]);
                },
                Head::And => {
                    let items = junction_items(inner).unwrap();
                    lemma_junction_items(inner);
                    lemma_negations(items);
                    lemma_list(Head::Or, negations(items));
                },
                Head::Or => {
                    let items = junction_items(inner).unwrap();
                    lemma_junction_items(inner);
                    lemma_negations(items);
                    lemma_list(Head::And, negations(items));
                },
                _ => {
                    lemma_constant(LiteralView::Bool(true));
                    lemma_constant(LiteralView::Bool(false));
                },
            }
        },
        _ => {
            let items = junction_items(x).unwrap();
            lemma_junction_items(x);
            lemma_constant(LiteralView::Bool(true));
            lemma_constant(LiteralView::Bool(false));
            if items.len() == 1 {
                lemma_single(items);
            }
        },
    }
}

/// If each of some expressions is replaced by itself or by something lighter, all of them
/// together have less bulk, or as much bulk and less burden, unless nothing changed.
proof fn lemma_all_lighter(before: Seq<ExpressionView>, after: Seq<ExpressionView>)
    requires
        after.len() == before.len(),
        forall|i: int|
            0 <= i < before.len() ==> #[trigger] after[i] == before[i] || lighter(
                after[i],
                before[i],
            ),
    ensures
        after == before || bulks(after) < bulks(before) || (bulks(after) == bulks(before)
            && burdens(after) < burdens(before)),
    decreases before.len(),
{
    if before.len() > 0 {
        lemma_all_lighter(before.drop_last(), after.drop_last());
        let last = before.len() - 1;
        assert(after[last] == before[last] || lighter(after[last], before[last]));
        if after.drop_last() == before.drop_last() && after[last] == before[last] {
            assert(after =~= after.drop_last().push(after[last]));
            assert(before =~= before.drop_last().push(before[last]));
        }
    } else {
        assert(after =~= before);
    }
}

/// A pass of a rule that lightens changes nothing or makes the expression lighter.
proof fn lemma_pass_lightens(expression: ExpressionView, rule: Reductions)
    requires
        lightens(rule),
    ensures
        rewritten(expression, rule) == expression || lighter(
            rewritten(expression, rule),
            expression,
        ),
    decreases expression,
{
    let before = expression.operands;
    let after = all_rewritten(before, rule);
    assert forall|i: int| 0 <= i < before.len() implies #[trigger] after[i] == before[i] || lighter(
        after[i],
        before[i],
    ) by {
        lemma_pass_lightens(before[i], rule);
    }
    lemma_all_lighter(before, after);
    let node = ExpressionView { head: expression.head, operands: after };
    if after == before {
        assert(node == expression);
    } else {
        if is_negation(expression) {
            lemma_single(before);
            lemma_single(after);
            assert(after[0] == before[0] || lighter(after[0], before[0]));
        }
        assert(lighter(node, expression));
    }
    assert(rule(node) matches Some(r) ==> r == node || lighter(r, node));
}

proof fn lemma_first_pass(
    expression: ExpressionView,
    constants: Constants,
    reductions: Reductions,
    passes: nat,
)
    ensures
        after_passes(expression, constants, reductions, passes + 1) == after_passes(
            rewritten(expression, simplification_rule(constants, reductions)),
            constants,
            reductions,
            passes,
        ),
    decreases passes,
{
    let rule = simplification_rule(constants, reductions);
    if passes == 0 {
        assert(after_passes(expression, constants, reductions, 0) == expression);
    } else {
        lemma_first_pass(expression, constants, reductions, (passes - 1) as nat);
    }
}

/// The rule of simplification makes whatever it replaces lighter, or leaves it as it is, if the
/// evaluators do.
pub open spec fn lightening(constants: Constants, reductions: Reductions) -> bool {
    &&& lightens(
        |x: ExpressionView|
            match constants(x) {
                Some(literal) => Some(constant(literal)),
                None => None,
            },
    )
    &&& lightens(reductions)
}

proof fn lemma_rule_lightens(constants: Constants, reductions: Reductions)
    requires
        lightening(constants, reductions),
    ensures
        lightens(simplification_rule(constants, reductions)),
{
    let rule = simplification_rule(constants, reductions);
    let by_constant = |x: ExpressionView|
        match constants(x) {
            Some(literal) => Some(constant(literal)),
            None => None,
        };
    assert forall|x: ExpressionView| (#[trigger] rule(x)) is Some implies rule(x).unwrap() == x
        || lighter(rule(x).unwrap(), x) by {
        if simplified_logic(x) is Some {
            lemma_logic_lightens(x);
        } else if constants(x) is Some {
            assert(by_constant(x) is Some);
        } else {
            assert(reductions(x) == rule(x));
        }
    }
}

/// Simplification comes to an end on every expression, if the evaluators repeat an expression or
/// make it lighter wherever they answer.
pub proof fn law_simplification_settles(
    expression: ExpressionView,
    constants: Constants,
    reductions: Reductions,
)
    requires
        lightening(constants, reductions),
    ensures
        settles(expression, constants, reductions),
    decreases bulk(expression), burden(expression),
{
    let rule = simplification_rule(constants, reductions);
    lemma_rule_lightens(constants, reductions);
    let next = rewritten(expression, rule);
    lemma_pass_lightens(expression, rule);
    assert(after_passes(expression, constants, reductions, 0) == expression);
    assert(after_passes(expression, constants, reductions, 1) == next);
    if next == expression {
        assert(settled_after(expression, constants, reductions, 0));
    } else {
        law_simplification_settles(next, constants, reductions);
        let passes = choose|passes: nat| settled_after(next, constants, reductions, passes);
        lemma_first_pass(expression, constants, reductions, passes);
        lemma_first_pass(expression, constants, reductions, passes + 1);
        assert(settled_after(expression, constants, reductions, passes + 1));
    }
}

/// No logical operator anywhere in an expression simplifies by itself.
pub open spec fn no_logic_left(expression: ExpressionView) -> bool
    decreases expression,
{
    &&& simplified_logic(expression) is None
    &&& forall|i: int|
        0 <= i < expression.operands.len() ==> no_logic_left(#[trigger] expression.operands[i])
}

proof fn lemma_stable_has_no_logic_left(expression: ExpressionView, rule: Reductions)
    requires
        lightens(rule),
        forall|x: ExpressionView| simplified_logic(x) is Some ==> #[trigger] rule(x)
            == simplified_logic(x),
        rewritten(expression, rule) == expression,
    ensures
        no_logic_left(expression),
    decreases expression,
{
    let before = expression.operands;
    let after = all_rewritten(before, rule);
    assert forall|i: int| 0 <= i < before.len() implies #[trigger] after[i] == before[i] || lighter(
        after[i],
        before[i],
    ) by {
        lemma_pass_lightens(before[i], rule);
    }
    lemma_all_lighter(before, after);
    let node = ExpressionView { head: expression.head, operands: after };
    assert(rule(node) matches Some(r) ==> r == node || lighter(r, node));
    if after != before {
        if is_negation(expression) {
            lemma_single(before);
            lemma_single(after);
            assert(after[0] == before[0] || lighter(after[0], before[0]));
        }
        assert(lighter(node, expression));
        assert(false);
    }
    assert(node == expression);
    if simplified_logic(expression) is Some {
        lemma_logic_lightens(expression);
        assert(rule(expression) == simplified_logic(expression));
        assert(false);
    }
    assert forall|i: int| 0 <= i < before.len() implies no_logic_left(#[trigger] before[i]) by {
        assert(after[i] == rewritten(before[i], rule));
        lemma_stable_has_no_logic_left(before[i], rule);
    }
}

/// A simplified expression has nothing left in it that a logical operator would simplify: no
/// negation of a truth value, of a negation, or of a conjunction or disjunction over a matrix,
/// and no conjunction or disjunction over a matrix of less than two items.
pub proof fn law_simplified_has_no_logic_left(
    expression: ExpressionView,
    constants: Constants,
    reductions: Reductions,
)
    requires
        lightening(constants, reductions),
    ensures
        no_logic_left(simplified(expression, constants, reductions)),
{
    law_simplification_settles(expression, constants, reductions);
    law_simplified_is_stable(expression, constants, reductions);
    lemma_rule_lightens(constants, reductions);
    lemma_stable_has_no_logic_left(
        simplified(expression, constants, reductions),
        simplification_rule(constants, reductions),
    );
}

/// Without evaluators, simplification comes to an end on every expression.
pub proof fn law_logic_alone_settles(expression: ExpressionView)
    ensures
        settles(
            expression,
            |x: ExpressionView| None::<LiteralView>,
            |x: ExpressionView| None::<ExpressionView>,
        ),
{
    law_simplification_settles(
        expression,
        |x: ExpressionView| None::<LiteralView>,
        |x: ExpressionView| None::<ExpressionView>,
    );
}

} // verus!
