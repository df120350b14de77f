//! What is made of a solution and a dominance relation, and what is handed on of it.
use crate::adaptor::{
    blocker_model, may_complete, may_translate, told, MinionView, SearchView, Tools,
};
use crate::dominance::{
    blocker, dominated, substituted, substitution_rule, swap_rule, swapped, value_in,
};
use crate::error::{SolverError, SolverErrorView};
use crate::expression::{
    AtomView, Expression, ExpressionView, GroundDomain, Head, Literal, LiteralView,
    ReferenceView,
};
use crate::injection::{may_inject, BlockerError};
use crate::meaning::{
    keeps_meaning, law_blocker_negates_dominance, literal_value, meaning, overridden,
    Interpretation, Value,
};
use crate::minion_ast::{Constraint, MinionModel, MinionModelView, VarDomain};
use crate::model::{Model, ModelView, Representation};
use crate::name::NameView;
use crate::rewrite::rewritten;
use crate::simplify::{constants_of, reductions_of, simplified, Constants, Reductions};
use crate::solution::Solution;
use vstd::prelude::*;

verus! {

/// What stands in place of a reference is the very value that the solution has for its name, for
/// every value. Over the Booleans it is the truth value, and the integers 1 and 0 stand for true
/// and false there; no other value is put in.
pub proof fn law_references_take_the_values_of_the_solution(
    reference: ReferenceView,
    operands: Seq<ExpressionView>,
    solution: Map<NameView, LiteralView>,
)
    ensures
        ({
            let result = substituted(
                ExpressionView { head: Head::Atomic(AtomView::Reference(reference)), operands },
                solution,
            );
            let literal = |value: LiteralView|
                ExpressionView {
                    head: Head::Atomic(AtomView::Literal(value)),
                    operands: Seq::empty(),
                };
            if !solution.dom().contains(reference.name) {
                result is None
            } else if reference.domain == Some(GroundDomain::Bool) {
                match solution[reference.name] {
                    LiteralView::Bool(b) => result == Some(literal(LiteralView::Bool(b))),
                    LiteralView::Int(n) => if n == 1 {
                        result == Some(literal(LiteralView::Bool(true)))
                    } else if n == 0 {
                        result == Some(literal(LiteralView::Bool(false)))
                    } else {
                        result is None
                    },
                    _ => result is None,
                }
            } else {
                result == Some(literal(solution[reference.name]))
            }
        }),
{
}

/// Nothing but a reference is replaced by a value of a solution.
pub proof fn law_only_references_take_values(
    expression: ExpressionView,
    solution: Map<NameView, LiteralView>,
)
    requires
        !(expression.head is Atomic && expression.head->Atomic_0 is Reference),
    ensures
        substituted(expression, solution) is None,
{
}

/// What asks for the value of an atom in a solution found before becomes that atom, and nothing
/// else is changed into one.
pub proof fn law_stored_values_become_their_atoms(expression: ExpressionView)
    ensures
        match expression.head {
            Head::FromSolution(atom) => swapped(expression) == Some(
                ExpressionView { head: Head::Atomic(atom), operands: Seq::empty() },
            ),
            _ => swapped(expression) is None,
        },
{
}

/// The relation between a solution and one yet to be found is the dominance relation with first
/// the values put in for references, everywhere, and then the values from a solution made
/// references, everywhere; what is posted is the simplified negation of that.
pub proof fn law_first_values_then_references(
    dominance: ExpressionView,
    solution: Map<NameView, LiteralView>,
    constants: Constants,
    reductions: Reductions,
    put_in: Reductions,
    swap: Reductions,
)
    requires
        forall|x: ExpressionView| #[trigger] put_in(x) == substituted(x, solution),
        forall|x: ExpressionView| #[trigger] swap(x) == swapped(x),
    ensures
        dominated(dominance, solution) == rewritten(rewritten(dominance, put_in), swap),
        blocker(dominance, solution, constants, reductions) == simplified(
            ExpressionView {
                head: Head::Not,
                operands: seq![rewritten(rewritten(dominance, put_in), swap)],
            },
            constants,
            reductions,
        ),
{
    assert(put_in =~= substitution_rule(solution));
    assert(swap =~= swap_rule());
}

/// The values of references, read from a solution as it is: a reference has the value of its name;
/// over the Booleans that is a truth value, or 1 or 0 for one. Any other reference has the value
/// that it has elsewhere.
pub open spec fn read_from(
    solution: Map<NameView, LiteralView>,
    elsewhere: spec_fn(ReferenceView) -> Value,
) -> spec_fn(ReferenceView) -> Value {
    |reference: ReferenceView|
        if !solution.dom().contains(reference.name) {
            elsewhere(reference)
        } else if reference.domain == Some(GroundDomain::Bool) {
            match solution[reference.name] {
                LiteralView::Bool(b) => Value::Bool(b),
                LiteralView::Int(n) => if n == 0 || n == 1 {
                    Value::Bool(n == 1)
                } else {
                    elsewhere(reference)
                },
                _ => elsewhere(reference),
            }
        } else {
            match solution[reference.name] {
                LiteralView::Int(n) => Value::Int(n),
                LiteralView::Bool(b) => Value::Bool(b),
                other => literal_value(other),
            }
        }
}

/// The value of a dominance relation between a solution, in which references have their values,
/// and a later one, which the values from a solution are those of.
pub open spec fn relation_value(
    dominance: ExpressionView,
    solution: Map<NameView, LiteralView>,
    later: Interpretation,
) -> Value {
    meaning(
        dominance,
        Interpretation {
            current: read_from(solution, later.current),
            stored: later.current,
            operators: later.operators,
        },
    )
}

/// Under `later` an expression means the opposite of the dominance relation between a solution and
/// a later one: it is true just where the relation is false.
pub open spec fn opposes(
    expression: ExpressionView,
    dominance: ExpressionView,
    solution: Map<NameView, LiteralView>,
    later: Interpretation,
) -> bool {
    let posted = meaning(expression, later);
    let relation = relation_value(dominance, solution, later);
    &&& posted == Value::Bool(true) <==> relation == Value::Bool(false)
    &&& posted == Value::Bool(false) <==> relation == Value::Bool(true)
    &&& !(relation is Bool) ==> posted == relation
}

/// The evaluators say of expressions what they mean.
pub open spec fn evaluators_keep_meaning(
    constants: Constants,
    reductions: Reductions,
    given: Interpretation,
) -> bool {
    &&& forall|x: ExpressionView| #[trigger]
        constants(x) matches Some(literal) ==> literal_value(literal) == meaning(x, given)
    &&& keeps_meaning(reductions, given)
}

/// What keeps out the dominated solutions means the opposite of the dominance relation, with the
/// values of references read from the solution as it is.
pub proof fn law_blocker_opposes_the_relation(
    dominance: ExpressionView,
    solution: Map<NameView, LiteralView>,
    constants: Constants,
    reductions: Reductions,
    later: Interpretation,
)
    requires
        evaluators_keep_meaning(constants, reductions, later),
    ensures
        opposes(
            blocker(dominance, solution, constants, reductions),
            dominance,
            solution,
            later,
        ),
{
    law_blocker_negates_dominance(dominance, solution, constants, reductions, later);
    assert forall|reference: ReferenceView| #[trigger]
        overridden(later.current, solution)(reference) == read_from(solution, later.current)(
        reference,
    ) by {
        if value_in(reference, solution) is Some {
            let value = value_in(reference, solution).unwrap();
            assert(value is Int ==> literal_value(value) == Value::Int(value->Int_0));
            assert(value is Bool ==> literal_value(value) == Value::Bool(value->Bool_0));
        }
    }
    assert(overridden(later.current, solution) =~= read_from(solution, later.current));
}

/// A model holds just one constraint and no clauses or dominance relation, and has the declarations
/// and the rule sets of `template`. Its constraint is the one that keeps out the dominated
/// solutions, and means the opposite of the dominance relation between a solution and a later one,
/// whatever the later one is.
pub open spec fn posts_the_opposite(
    model: ModelView,
    template: ModelView,
    dominance: ExpressionView,
    solution: Map<NameView, LiteralView>,
    constants: Constants,
    reductions: Reductions,
) -> bool {
    &&& model.symbols == template.symbols
    &&& model.rule_sets == template.rule_sets
    &&& model.clauses.len() == 0
    &&& model.dominance is None
    &&& model.constraints.len() == 1
    &&& model.constraints[0] == blocker(dominance, solution, constants, reductions)
    &&& forall|later: Interpretation| #[trigger]
        evaluators_keep_meaning(constants, reductions, later) ==> opposes(
            model.constraints[0],
            dominance,
            solution,
            later,
        )
}

/// The rewriter was handed this model and rule sets, and replied so.
pub open spec fn was_rewritten<E, P, V, R, T, A, C>(
    tools: &Tools<E, P, V, R, T, A, C>,
    model: Model,
    rule_sets: &Vec<&'static str>,
    rewritten: Result<Model, String>,
) -> bool where R: Fn(Model, &Vec<&'static str>) -> Result<Model, String> {
    call_ensures(tools.rewrite_model, (model, rule_sets), rewritten)
}

/// The translator was handed a model that says what `rewritten` says, and replied so.
pub open spec fn was_translated<E, P, V, R, T, A, C>(
    tools: &Tools<E, P, V, R, T, A, C>,
    rewritten: Model,
    translated: Result<MinionModel, SolverError>,
) -> bool where T: Fn(Model) -> Result<MinionModel, SolverError> {
    exists|model: Model|
        model@ == rewritten@ && #[trigger] call_ensures(
            tools.model_to_minion,
            (model,),
            translated,
        )
}

/// What comes of a reply of the rewriter: where it fails, nothing is sent or added and the error
/// tells so; else what it gives goes to the translator. Where that fails, nothing is sent or added
/// and the error is its own; else just what it gives is injected.
pub open spec fn follows_from<E, P, V, R, T, A, C, S>(
    tools: &Tools<E, P, V, R, T, A, C>,
    rewritten: Result<Model, String>,
    before: MinionModelView,
    from: S,
    after: MinionModelView,
    outcome: Result<(), SolverErrorView>,
    to: S,
) -> bool where
    T: Fn(Model) -> Result<MinionModel, SolverError>,
    A: Fn(&str, &VarDomain, S) -> (Result<(), String>, S),
    C: Fn(&Constraint, S) -> (Result<(), String>, S),
 {
    match rewritten {
        Err(reason) => {
            &&& after == before
            &&& to == from
            &&& outcome == Err::<(), SolverErrorView>(
                SolverErrorView::Runtime(
                    "Failed to rewrite dominance constraint for Minion solving: "@ + reason@,
                ),
            )
        },
        Ok(rewritten) => exists|translated: Result<MinionModel, SolverError>|
            {
                &&& #[trigger] was_translated(tools, rewritten, translated)
                &&& match translated {
                    Err(error) => after == before && to == from && outcome == Err::<
                        (),
                        SolverErrorView,
                    >(error@),
                    Ok(prepared) => may_inject(
                        tools.add_variable,
                        tools.add_constraint,
                        before,
                        Ok(prepared),
                        from,
                        after,
                        outcome,
                        to,
                    ),
                }
            },
    }
}

/// Whatever is done with a solution and a dominance relation: the rewriter is handed a model whose
/// one constraint means the opposite of the relation between the solution and a later one, and
/// what comes of it follows from the replies.
pub proof fn law_the_opposite_of_the_relation_is_posted<E, P, V, R, T, A, C, S>(
    tools: &Tools<E, P, V, R, T, A, C>,
    dominance: ExpressionView,
    template: ModelView,
    solution: Map<NameView, LiteralView>,
    before: MinionModelView,
    from: S,
    after: MinionModelView,
    outcome: Result<(), SolverErrorView>,
    to: S,
) where
    E: Fn(&Expression) -> Option<Literal>,
    P: Fn(&Expression) -> Option<Expression>,
    V: Fn(&Representation, &Solution) -> Option<Literal>,
    R: Fn(Model, &Vec<&'static str>) -> Result<Model, String>,
    T: Fn(Model) -> Result<MinionModel, SolverError>,
    A: Fn(&str, &VarDomain, S) -> (Result<(), String>, S),
    C: Fn(&Constraint, S) -> (Result<(), String>, S),

    requires
        tools.may_block(dominance, template, solution, before, from, after, outcome, to),
    ensures
        exists|model: Model, rule_sets: &Vec<&'static str>, rewritten: Result<Model, String>|
            {
                &&& #[trigger] was_rewritten(tools, model, rule_sets, rewritten)
                &&& rule_sets@ == template.rule_sets
                &&& posts_the_opposite(
                    model@,
                    template,
                    dominance,
                    solution,
                    constants_of(tools.eval_constant),
                    reductions_of(tools.run_partial_evaluator),
                )
                &&& follows_from(tools, rewritten, before, from, after, outcome, to)
            },
{
    let constants = constants_of(tools.eval_constant);
    let reductions = reductions_of(tools.run_partial_evaluator);
    let posted = blocker_model(template, tools.blocker(dominance, solution));
    assert(posts_the_opposite(posted, template, dominance, solution, constants, reductions)) by {
        assert forall|later: Interpretation| #[trigger]
            evaluators_keep_meaning(constants, reductions, later) implies opposes(
            posted.constraints[0],
            dominance,
            solution,
            later,
        ) by {
            law_blocker_opposes_the_relation(dominance, solution, constants, reductions, later);
        }
    }
    let prepared = choose|prepared: Result<MinionModel, BlockerError>|
        {
            &&& #[trigger] tools.may_prepare(posted, prepared)
            &&& may_inject(
                tools.add_variable,
                tools.add_constraint,
                before,
                prepared,
                from,
                after,
                outcome,
                to,
            )
        };
    let rewritten = choose|rewritten: Result<Model, String>|
        {
            &&& #[trigger] tools.may_rewrite(posted, rewritten)
            &&& match (rewritten, prepared) {
                (Ok(rewritten), Ok(minion_model)) => may_translate(
                    tools.model_to_minion,
                    rewritten@,
                    Ok(minion_model),
                ),
                (Ok(rewritten), Err(BlockerError::Translation(error))) => may_translate(
                    tools.model_to_minion,
                    rewritten@,
                    Err(error),
                ),
                (Err(reason), Err(BlockerError::Rewriting(given))) => given == reason,
                _ => false,
            }
        };
    let (model, rule_sets) = choose|model: Model, rule_sets: &Vec<&'static str>|
        model@ == posted && rule_sets@ == posted.rule_sets && #[trigger] call_ensures(
            tools.rewrite_model,
            (model, rule_sets),
            rewritten,
        );
    assert(was_rewritten(tools, model, rule_sets, rewritten));
    match rewritten {
        Ok(given) => {
            let translated = match prepared {
                Ok(minion_model) => Ok(minion_model),
                Err(BlockerError::Translation(error)) => Err(error),
                Err(BlockerError::Rewriting(_)) => arbitrary(),
            };
            assert(was_translated(tools, given, translated));
        },
        Err(_) => {},
    }
    assert(follows_from(tools, rewritten, before, from, after, outcome, to));
}

/// After a solution with which the user wants to go on, and with a dominance relation and a model
/// to state it over: the solution is completed, the rewriter is handed the opposite of the
/// relation between the completed solution and a later one, and the model, the outcome and whether
/// the search goes on follow from the replies.
pub proof fn law_taking_a_solution_posts_the_opposite<E, P, V, R, T, A, C, S>(
    tools: &Tools<E, P, V, R, T, A, C>,
    minion: MinionView,
    values: Map<NameView, LiteralView>,
    before: SearchView,
    from: S,
    after: SearchView,
    go_on: bool,
    to: S,
) where
    E: Fn(&Expression) -> Option<Literal>,
    P: Fn(&Expression) -> Option<Expression>,
    V: Fn(&Representation, &Solution) -> Option<Literal>,
    R: Fn(Model, &Vec<&'static str>) -> Result<Model, String>,
    T: Fn(Model) -> Result<MinionModel, SolverError>,
    A: Fn(&str, &VarDomain, S) -> (Result<(), String>, S),
    C: Fn(&Constraint, S) -> (Result<(), String>, S),

    requires
        tools.may_take(minion, values, before, true, from, after, go_on, to),
        minion.dominance_expression is Some,
        minion.dominance_model_template is Some,
    ensures
        after.any_solutions,
        after.user_terminated == (before.user_terminated || !go_on),
        go_on ==> after.hook_error == before.hook_error,
        !go_on ==> after.hook_error is Some,
        exists|
            completed: Map<NameView, LiteralView>,
            model: Model,
            rule_sets: &Vec<&'static str>,
            rewritten: Result<Model, String>,
        |
            {
                &&& #[trigger] may_complete(
                    tools.value_up,
                    minion.dominance_model_template,
                    values,
                    completed,
                )
                &&& #[trigger] was_rewritten(tools, model, rule_sets, rewritten)
                &&& rule_sets@ == minion.dominance_model_template.unwrap().rule_sets
                &&& posts_the_opposite(
                    model@,
                    minion.dominance_model_template.unwrap(),
                    minion.dominance_expression.unwrap(),
                    completed,
                    constants_of(tools.eval_constant),
                    reductions_of(tools.run_partial_evaluator),
                )
                &&& follows_from(
                    tools,
                    rewritten,
                    before.model,
                    from,
                    after.model,
                    if go_on {
                        Ok(())
                    } else {
                        Err(after.hook_error.unwrap())
                    },
                    to,
                )
            },
{
    let seen = SearchView { any_solutions: true, ..before };
    let (grown, outcome) = choose|grown: MinionModelView, outcome: Result<(), SolverErrorView>|
        {
            &&& #[trigger] tools.may_go_on(
                minion,
                values,
                before.model,
                from,
                grown,
                outcome,
                to,
            )
            &&& match outcome {
                Ok(()) => go_on && after == (SearchView { model: grown, ..seen }),
                Err(error) => !go_on && after == told(
                    SearchView { model: grown, hook_error: Some(error), ..seen },
                    false,
                ),
            }
        };
    let completed = choose|completed: Map<NameView, LiteralView>|
        {
            &&& #[trigger] may_complete(
                tools.value_up,
                minion.dominance_model_template,
                values,
                completed,
            )
            &&& tools.may_block(
                minion.dominance_expression.unwrap(),
                minion.dominance_model_template.unwrap(),
                completed,
                before.model,
                from,
                grown,
                outcome,
                to,
            )
        };
    law_the_opposite_of_the_relation_is_posted(
        tools,
        minion.dominance_expression.unwrap(),
        minion.dominance_model_template.unwrap(),
        completed,
        before.model,
        from,
        grown,
        outcome,
        to,
    );
    assert(outcome == if go_on {
        Ok::<(), SolverErrorView>(())
    } else {
        Err(after.hook_error.unwrap())
    });
}

} // verus!
