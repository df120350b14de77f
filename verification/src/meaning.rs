//! What expressions mean, and what the rewriting of this library does to it.
use crate::dominance::{blocker, dominated, substitution_rule, swap_rule, value_in};
use crate::expression::{
    constant, constants, list, matrix_parts, negated, unary, AtomView, CollectionKind,
    ExpressionView, Head, LiteralView, ReferenceView,
};
use crate::name::NameView;
use crate::rewrite::{all_rewritten, rewritten};
use crate::simplify::{
    after_passes, junction_items, negations, settled_after, simplification_rule, simplified,
    simplified_logic, Constants, Reductions,
};
use vstd::prelude::*;

verus! {

/// The values that expressions can have.
pub enum Value {
    Int(i32),
    Bool(bool),
    Matrix(Seq<Value>),
    Collection(CollectionKind, Seq<Value>),
    /// Any other value, known by a number.
    Other(int),
}

/// The value of a literal.
pub open spec fn literal_value(literal: LiteralView) -> Value
    decreases literal,
{
    match literal {
        LiteralView::Int(n) => Value::Int(n),
        LiteralView::Bool(b) => Value::Bool(b),
        LiteralView::Matrix(items, _) => Value::Matrix(literal_values(items)),
        LiteralView::Collection(kind, items) => Value::Collection(kind, literal_values(items)),
    }
}

/// The values of some literals.
pub open spec fn literal_values(items: Seq<LiteralView>) -> Seq<Value>
    decreases items,
{
    Seq::new(
        items.len(),
        |i: int| if 0 <= i < items.len() { literal_value(items[i]) } else { arbitrary() },
    )
}

/// What expressions mean where they leave it open: the values of references, their values in a
/// solution found before, and what the operators do that have no fixed meaning here.
pub struct Interpretation {
    pub current: spec_fn(ReferenceView) -> Value,
    pub stored: spec_fn(ReferenceView) -> Value,
    pub operators: spec_fn(Head, Seq<Value>) -> Value,
}

/// The opposite of a truth value; any other value is left as it is.
pub open spec fn negation(value: Value) -> Value {
    match value {
        Value::Bool(b) => Value::Bool(!b),
        _ => value,
    }
}

/// The conjunction of some truth values. One value by itself is its own conjunction, and a value
/// that is no truth value counts as not false.
pub open spec fn conjunction(items: Seq<Value>) -> Value {
    if items.len() == 1 {
        items[0]
    } else {
        Value::Bool(
            forall|i: int| 0 <= i < items.len() ==> #[trigger] items[i] != Value::Bool(false),
        )
    }
}

/// The disjunction of some truth values. One value by itself is its own disjunction, and a value
/// that is no truth value counts as not true.
pub open spec fn disjunction(items: Seq<Value>) -> Value {
    if items.len() == 1 {
        items[0]
    } else {
        Value::Bool(
            exists|i: int| 0 <= i < items.len() && #[trigger] items[i] == Value::Bool(true),
        )
    }
}

/// The value of an expression that has `head` at its root and operands of these values.
pub open spec fn applied(head: Head, operands: Seq<Value>, given: Interpretation) -> Value {
    match head {
        Head::Atomic(AtomView::Literal(literal)) => literal_value(literal),
        Head::Atomic(AtomView::Reference(reference)) => (given.current)(reference),
        Head::FromSolution(AtomView::Literal(literal)) => literal_value(literal),
        Head::FromSolution(AtomView::Reference(reference)) => (given.stored)(reference),
        Head::Matrix(_) => Value::Matrix(operands),
        Head::Not if operands.len() == 1 => negation(operands[0]),
        Head::And if operands.len() == 1 && operands[0] is Matrix => conjunction(
            operands[0]->Matrix_0,
        ),
        Head::Or if operands.len() == 1 && operands[0] is Matrix => disjunction(
            operands[0]->Matrix_0,
        ),
        _ => (given.operators)(head, operands),
    }
}

/// The value of an expression.
pub open spec fn meaning(expression: ExpressionView, given: Interpretation) -> Value
    decreases expression,
{
    applied(expression.head, meanings(expression.operands, given), given)
}

/// The values of some expressions.
pub open spec fn meanings(items: Seq<ExpressionView>, given: Interpretation) -> Seq<Value>
    decreases items,
{
    Seq::new(
        items.len(),
        |i: int| if 0 <= i < items.len() { meaning(items[i], given) } else { arbitrary() },
    )
}

/// A rule that replaces expressions by expressions of the same value only.
pub open spec fn keeps_meaning(rule: Reductions, given: Interpretation) -> bool {
    forall|x: ExpressionView| #[trigger]
        rule(x) matches Some(replacement) ==> meaning(replacement, given) == meaning(x, given)
}

proof fn lemma_constant(literal: LiteralView, given: Interpretation)
    ensures
        meaning(constant(literal), given) == literal_value(literal),
{
}

proof fn lemma_unary(head: Head, operand: ExpressionView, given: Interpretation)
    ensures
        meaning(unary(head, operand), given) == applied(head, seq![meaning(operand, given)], given),
{
    assert(meanings(unary(head, operand).operands, given) =~= seq![meaning(operand, given)]);
}

/// The value of a matrix is that of its items.
proof fn lemma_matrix_parts(matrix: ExpressionView, given: Interpretation)
    requires
        matrix_parts(matrix) is Some,
    ensures
        meaning(matrix, given) == Value::Matrix(
            meanings(matrix_parts(matrix).unwrap().0, given),
        ),
{
    match matrix.head {
        Head::Atomic(AtomView::Literal(LiteralView::Matrix(items, _))) => {
            assert forall|i: int| 0 <= i < items.len() implies #[trigger] meanings(
                constants(items),
                given,
            )[i] == literal_value(items[i]) by {
                lemma_constant(items[i], given);
            }
            assert(meanings(constants(items), given) =~= literal_values(items));
        },
        _ => {},
    }
}

proof fn lemma_junction(junction: ExpressionView, given: Interpretation)
    requires
        junction_items(junction) is Some,
        junction.head is And || junction.head is Or,
    ensures
        junction.head is And ==> meaning(junction, given) == conjunction(
            meanings(junction_items(junction).unwrap(), given),
        ),
        junction.head is Or ==> meaning(junction, given) == disjunction(
            meanings(junction_items(junction).unwrap(), given),
        ),
{
    lemma_matrix_parts(junction.operands[0], given);
    assert(meanings(junction.operands, given)[0] == meaning(junction.operands[0], given));
}

/// De Morgan's laws, on values.
proof fn lemma_de_morgan(items: Seq<Value>, opposites: Seq<Value>)
    requires
        opposites.len() == items.len(),
        forall|i: int| 0 <= i < items.len() ==> #[trigger] opposites[i] == negation(items[i]),
    ensures
        disjunction(opposites) == negation(conjunction(items)),
        conjunction(opposites) == negation(disjunction(items)),
{
    if items.len() != 1 {
        if exists|i: int| 0 <= i < items.len() && #[trigger] items[i] == Value::Bool(false) {
            let i = choose|i: int|
                0 <= i < items.len() && #[trigger] items[i] == Value::Bool(false);
            assert(opposites[i] == Value::Bool(true));
        }
        if exists|i: int| 0 <= i < items.len() && #[trigger] opposites[i] == Value::Bool(true) {
            let i = choose|i: int|
                0 <= i < items.len() && #[trigger] opposites[i] == Value::Bool(true);
            assert(items[i] == Value::Bool(false));
        }
        if exists|i: int| 0 <= i < items.len() && #[trigger] items[i] == Value::Bool(true) {
            let i = choose|i: int| 0 <= i < items.len() && #[trigger] items[i] == Value::Bool(true);
            assert(opposites[i] == Value::Bool(false));
        }
        if exists|i: int| 0 <= i < items.len() && #[trigger] opposites[i] == Value::Bool(false) {
            let i = choose|i: int|
                0 <= i < items.len() && #[trigger] opposites[i] == Value::Bool(false);
            assert(items[i] == Value::Bool(true));
        }
    }
}

proof fn lemma_negated_junction(head: Head, items: Seq<ExpressionView>, given: Interpretation)
    requires
        head is And || head is Or,
    ensures
        head is Or ==> meaning(unary(head, list(negations(items))), given) == negation(
            conjunction(meanings(items, given)),
        ),
        head is And ==> meaning(unary(head, list(negations(items))), given) == negation(
            disjunction(meanings(items, given)),
        ),
{
    let opposites = meanings(negations(items), given);
    assert forall|i: int| 0 <= i < items.len() implies #[trigger] opposites[i] == negation(
        meanings(items, given)[i],
    ) by {
        lemma_unary(Head::Not, items[i], given);
    }
    lemma_de_morgan(meanings(items, given), opposites);
    lemma_unary(head, list(negations(items)), given);
    assert(meaning(list(negations(items)), given) == Value::Matrix(opposites));
}

/// The simplification of a logical operator keeps the value.
proof fn lemma_logic_keeps_meaning(x: ExpressionView, given: Interpretation)
    requires
        simplified_logic(x) is Some,
    ensures
        meaning(simplified_logic(x).unwrap(), given) == meaning(x, given),
{
    match x.head {
        Head::Not => {
            let inner = x.operands[0];
            assert(meanings(x.operands, given)[0] == meaning(inner, given));
            assert(meaning(x, given) == negation(meaning(inner, given)));
            match inner.head {
                Head::Not => {
                    assert(meanings(inner.operands, given)[0] == meaning(
                        inner.operands[0],
                        given,
                    ));
                },
                Head::And => {
                    lemma_junction(inner, given);
                    lemma_negated_junction(Head::Or, junction_items(inner).unwrap(), given);
                },
                Head::Or => {
                    lemma_junction(inner, given);
                    lemma_negated_junction(Head::And, junction_items(inner).unwrap(), given);
                },
                _ => {
                    lemma_constant(LiteralView::Bool(true), given);
                    lemma_constant(LiteralView::Bool(false), given);
                },
            }
        },
        _ => {
            lemma_junction(x, given);
            lemma_constant(LiteralView::Bool(true), given);
            lemma_constant(LiteralView::Bool(false), given);
            let items = junction_items(x).unwrap();
            if items.len() == 1 {
                assert(meanings(items, given)[0] == meaning(items[0], given));
            }
        },
    }
}

/// A pass of a rule that keeps the value of what it replaces keeps the value of the whole.
pub proof fn law_pass_keeps_meaning(
    expression: ExpressionView,
    rule: Reductions,
    given: Interpretation,
)
    requires
        keeps_meaning(rule, given),
    ensures
        meaning(rewritten(expression, rule), given) == meaning(expression, given),
    decreases expression,
{
    let before = expression.operands;
    let after = all_rewritten(before, rule);
    assert forall|i: int| 0 <= i < before.len() implies #[trigger] meanings(after, given)[i]
        == meanings(before, given)[i] by {
        law_pass_keeps_meaning(before[i], rule, given);
    }
    assert(meanings(after, given) =~= meanings(before, given));
    let node = ExpressionView { head: expression.head, operands: after };
    assert(rule(node) matches Some(r) ==> meaning(r, given) == meaning(node, given));
}

proof fn lemma_passes_keep_meaning(
    expression: ExpressionView,
    constants: Constants,
    reductions: Reductions,
    passes: nat,
    given: Interpretation,
)
    requires
        keeps_meaning(simplification_rule(constants, reductions), given),
    ensures
        meaning(after_passes(expression, constants, reductions, passes), given) == meaning(
            expression,
            given,
        ),
    decreases passes,
{
    if passes > 0 {
        let before = after_passes(expression, constants, reductions, (passes - 1) as nat);
        lemma_passes_keep_meaning(
            expression,
            constants,
            reductions,
            (passes - 1) as nat,
            given,
        );
        law_pass_keeps_meaning(before, simplification_rule(constants, reductions), given);
    }
}

/// Simplification keeps the value of an expression, if the evaluators keep it wherever they
/// answer.
pub proof fn law_simplification_keeps_meaning(
    expression: ExpressionView,
    constants: Constants,
    reductions: Reductions,
    given: Interpretation,
)
    requires
        forall|x: ExpressionView| #[trigger]
            constants(x) matches Some(literal) ==> literal_value(literal) == meaning(x, given),
        keeps_meaning(reductions, given),
    ensures
        meaning(simplified(expression, constants, reductions), given) == meaning(
            expression,
            given,
        ),
{
    let rule = simplification_rule(constants, reductions);
    assert(keeps_meaning(rule, given)) by {
        assert forall|x: ExpressionView| (#[trigger] rule(x)) is Some implies meaning(
            rule(x).unwrap(),
            given,
        ) == meaning(x, given) by {
            if simplified_logic(x) is Some {
                lemma_logic_keeps_meaning(x, given);
            } else if constants(x) is Some {
                lemma_constant(constants(x).unwrap(), given);
            } else {
                assert(reductions(x) == rule(x));
            }
        }
    }
    let passes = choose|passes: nat| settled_after(expression, constants, reductions, passes);
    lemma_passes_keep_meaning(expression, constants, reductions, passes, given);
}

/// The values of references where a solution gives some of them a value.
pub open spec fn overridden(
    current: spec_fn(ReferenceView) -> Value,
    solution: Map<NameView, LiteralView>,
) -> spec_fn(ReferenceView) -> Value {
    |reference: ReferenceView|
        match value_in(reference, solution) {
            Some(value) => literal_value(value),
            None => current(reference),
        }
}

proof fn lemma_substitution(
    expression: ExpressionView,
    solution: Map<NameView, LiteralView>,
    given: Interpretation,
)
    ensures
        meaning(rewritten(expression, substitution_rule(solution)), given) == meaning(
            expression,
            Interpretation { current: overridden(given.current, solution), ..given },
        ),
    decreases expression,
{
    let valued = Interpretation { current: overridden(given.current, solution), ..given };
    let rule = substitution_rule(solution);
    let before = expression.operands;
    let after = all_rewritten(before, rule);
    assert forall|i: int| 0 <= i < before.len() implies #[trigger] meanings(after, given)[i]
        == meanings(before, valued)[i] by {
        lemma_substitution(before[i], solution, given);
    }
    assert(meanings(after, given) =~= meanings(before, valued));
    let node = ExpressionView { head: expression.head, operands: after };
    match node.head {
        Head::Atomic(AtomView::Reference(reference)) => {
            if value_in(reference, solution) is Some {
                lemma_constant(value_in(reference, solution).unwrap(), given);
            }
        },
        _ => {},
    }
}

proof fn lemma_swap(expression: ExpressionView, given: Interpretation)
    ensures
        meaning(rewritten(expression, swap_rule()), given) == meaning(
            expression,
            Interpretation { stored: given.current, ..given },
        ),
    decreases expression,
{
    let stored = Interpretation { stored: given.current, ..given };
    let rule = swap_rule();
    let before = expression.operands;
    let after = all_rewritten(before, rule);
    assert forall|i: int| 0 <= i < before.len() implies #[trigger] meanings(after, given)[i]
        == meanings(before, stored)[i] by {
        lemma_swap(before[i], given);
    }
    assert(meanings(after, given) =~= meanings(before, stored));
}

/// The constraint that a solution puts on the solutions after it holds of just those that the
/// solution does not dominate: it is the opposite of the dominance relation in which references
/// have their values in the solution, where it has them, and the values from a solution are those
/// of the solution yet to be found.
pub proof fn law_blocker_negates_dominance(
    dominance: ExpressionView,
    solution: Map<NameView, LiteralView>,
    constants: Constants,
    reductions: Reductions,
    given: Interpretation,
)
    requires
        forall|x: ExpressionView| #[trigger]
            constants(x) matches Some(literal) ==> literal_value(literal) == meaning(x, given),
        keeps_meaning(reductions, given),
    ensures
        meaning(blocker(dominance, solution, constants, reductions), given) == negation(
            meaning(
                dominance,
                Interpretation {
                    current: overridden(given.current, solution),
                    stored: given.current,
                    operators: given.operators,
                },
            ),
        ),
{
    let relation = dominated(dominance, solution);
    law_simplification_keeps_meaning(negated(relation), constants, reductions, given);
    lemma_unary(Head::Not, relation, given);
    lemma_swap(rewritten(dominance, substitution_rule(solution)), given);
    lemma_substitution(
        dominance,
        solution,
        Interpretation { stored: given.current, ..given },
    );
}

/// The constraint that a solution puts on the solutions after it is met just by those that the
/// solution does not dominate, and broken just by those that it does.
pub proof fn law_blocker_keeps_out_the_dominated(
    dominance: ExpressionView,
    solution: Map<NameView, LiteralView>,
    constants: Constants,
    reductions: Reductions,
    given: Interpretation,
)
    requires
        forall|x: ExpressionView| #[trigger]
            constants(x) matches Some(literal) ==> literal_value(literal) == meaning(x, given),
        keeps_meaning(reductions, given),
    ensures
        ({
            let relation = meaning(
                dominance,
                Interpretation {
                    current: overridden(given.current, solution),
                    stored: given.current,
                    operators: given.operators,
                },
            );
            let constraint = meaning(blocker(dominance, solution, constants, reductions), given);
            &&& constraint == Value::Bool(true) <==> relation == Value::Bool(false)
            &&& constraint == Value::Bool(false) <==> relation == Value::Bool(true)
        }),
{
    law_blocker_negates_dominance(dominance, solution, constants, reductions, given);
}

} // verus!
