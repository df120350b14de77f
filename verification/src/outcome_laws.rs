//! What searches with a dominance relation deliver, given what Minion and the modelling layer do.
use crate::adaptor::{after_search, blocker_model, may_complete, MinionView, SearchView, Tools};
use crate::dominance::value_in;
use crate::dominance_laws::everywhere;
use crate::error::{MinionError, SolverError};
use crate::expression::{
    AtomView, Expression, ExpressionView, Head, Literal, LiteralView, ReferenceView,
};
use crate::meaning::{
    keeps_meaning, law_blocker_keeps_out_the_dominated, literal_value, meaning, meanings,
    overridden, Interpretation, Value,
};
use crate::minion_ast::{Constraint, ConstraintView, MinionModel, MinionModelView, VarDomain};
use crate::model::{Model, ModelView, Representation};
use crate::name::NameView;
use crate::search_laws::{
    grown_from, law_going_on_keeps_out_the_dominated, law_whole_search, lemma_grown_further,
    searched, taken, Taken,
};
use crate::simplify::{constants_of, reductions_of};
use crate::solution::Solution;
use vstd::prelude::*;

verus! {

/// The value of a dominance relation between a solution found and a later one: references have
/// their values in the solution found, where it has them, and the values from a solution are
/// those of the later one.
pub open spec fn relation_between(
    dominance: ExpressionView,
    found: Map<NameView, LiteralView>,
    later: Interpretation,
) -> Value {
    meaning(
        dominance,
        Interpretation {
            current: overridden(later.current, found),
            stored: later.current,
            operators: later.operators,
        },
    )
}

/// Anything but a reference to which a solution gives no value.
pub open spec fn valued_in(solution: Map<NameView, LiteralView>) -> spec_fn(Head) -> bool {
    |head: Head|
        match head {
            Head::Atomic(AtomView::Reference(reference)) => value_in(reference, solution) is Some,
            _ => true,
        }
}

/// If a solution gives a value to every reference in an expression, the expression means the same
/// whatever values references have elsewhere.
pub proof fn law_valued_references_are_read_from_the_solution(
    expression: ExpressionView,
    solution: Map<NameView, LiteralView>,
    given: Interpretation,
    elsewhere: spec_fn(ReferenceView) -> Value,
)
    requires
        everywhere(expression, valued_in(solution)),
    ensures
        meaning(
            expression,
            Interpretation { current: overridden(given.current, solution), ..given },
        ) == meaning(
            expression,
            Interpretation { current: overridden(elsewhere, solution), ..given },
        ),
    decreases expression,
{
    let one = Interpretation { current: overridden(given.current, solution), ..given };
    let other = Interpretation { current: overridden(elsewhere, solution), ..given };
    let operands = expression.operands;
    assert forall|i: int| 0 <= i < operands.len() implies #[trigger] meanings(operands, one)[i]
        == meanings(operands, other)[i] by {
        law_valued_references_are_read_from_the_solution(operands[i], solution, given, elsewhere);
    }
    assert(meanings(operands, one) =~= meanings(operands, other));
    assert(valued_in(solution)(expression.head));
}

/// What the constraints of Minion say of the values of a solution, and what expressions mean under
/// these values.
pub struct Semantics {
    /// Whether some constraints can hold together under the values of a solution: whether there
    /// are values for all other variables, in their domains, with which each of them holds.
    pub solves: spec_fn(Seq<ConstraintView>, Map<NameView, LiteralView>) -> bool,
    /// What expressions mean under the values of a solution.
    pub reading: spec_fn(Map<NameView, LiteralView>) -> Interpretation,
}

/// A solution of these values was shown to the user.
pub open spec fn is_shown<S>(
    solutions: Seq<Taken<S>>,
    values: Map<NameView, LiteralView>,
) -> bool {
    exists|j: int| 0 <= j < solutions.len() && (#[trigger] solutions[j]).values == values
}

impl Semantics {
    /// Constraints that can hold together with others can hold together without them.
    pub open spec fn is_monotone(self) -> bool {
        forall|
            first: Seq<ConstraintView>,
            middle: Seq<ConstraintView>,
            last: Seq<ConstraintView>,
            values: Map<NameView, LiteralView>,
        | #[trigger]
            (self.solves)(first + middle + last, values) ==> (self.solves)(middle, values)
    }

    /// Minion shows solutions only of the constraints that it has when it shows them.
    pub open spec fn has_shown_solutions<S>(
        self,
        solutions: Seq<Taken<S>>,
        states: Seq<SearchView>,
    ) -> bool {
        forall|j: int|
            0 <= j < solutions.len() ==> (self.solves)(
                states[j].model.constraints,
                (#[trigger] solutions[j]).values,
            )
    }

    /// Where the constraints can hold that an expression is prepared to for Minion, by rewriting
    /// and by bringing it into the form that Minion takes, the expression is true.
    pub open spec fn is_kept_by_preparation<E, P, V, R, T, A, C>(
        self,
        tools: &Tools<E, P, V, R, T, A, C>,
        template: ModelView,
    ) -> bool where
        E: Fn(&Expression) -> Option<Literal>,
        P: Fn(&Expression) -> Option<Expression>,
        V: Fn(&Representation, &Solution) -> Option<Literal>,
        R: Fn(Model, &Vec<&'static str>) -> Result<Model, String>,
        T: Fn(Model) -> Result<MinionModel, SolverError>,
     {
        forall|
            expression: ExpressionView,
            prepared: MinionModel,
            values: Map<NameView, LiteralView>,
        |
            #[trigger] tools.may_prepare(blocker_model(template, expression), Ok(prepared))
                && #[trigger] (self.solves)(prepared@.constraints, values) ==> meaning(
                expression,
                (self.reading)(values),
            ) == Value::Bool(true)
    }

    /// What the evaluators return means what the expression means.
    pub open spec fn is_kept_by_evaluation<E, P, V, R, T, A, C>(
        self,
        tools: &Tools<E, P, V, R, T, A, C>,
    ) -> bool where
        E: Fn(&Expression) -> Option<Literal>,
        P: Fn(&Expression) -> Option<Expression>,
        V: Fn(&Representation, &Solution) -> Option<Literal>,
        R: Fn(Model, &Vec<&'static str>) -> Result<Model, String>,
        T: Fn(Model) -> Result<MinionModel, SolverError>,
     {
        &&& forall|x: ExpressionView, values: Map<NameView, LiteralView>|
            #![trigger constants_of(tools.eval_constant)(x), (self.reading)(values)]
            constants_of(tools.eval_constant)(x) matches Some(literal) ==> literal_value(literal)
                == meaning(x, (self.reading)(values))
        &&& forall|values: Map<NameView, LiteralView>|
            keeps_meaning(
                reductions_of(tools.run_partial_evaluator),
                #[trigger] (self.reading)(values),
            )
    }

    /// Constraints that can hold by themselves can hold together.
    pub open spec fn is_compositional(self) -> bool {
        forall|
            first: Seq<ConstraintView>,
            second: Seq<ConstraintView>,
            values: Map<NameView, LiteralView>,
        |
            (self.solves)(first, values) && (self.solves)(second, values) ==> #[trigger] (
            self.solves)(first + second, values)
    }

    /// Where an expression is true, the constraints can hold that it is prepared to for Minion.
    pub open spec fn is_met_by_preparation<E, P, V, R, T, A, C>(
        self,
        tools: &Tools<E, P, V, R, T, A, C>,
        template: ModelView,
    ) -> bool where
        E: Fn(&Expression) -> Option<Literal>,
        P: Fn(&Expression) -> Option<Expression>,
        V: Fn(&Representation, &Solution) -> Option<Literal>,
        R: Fn(Model, &Vec<&'static str>) -> Result<Model, String>,
        T: Fn(Model) -> Result<MinionModel, SolverError>,
     {
        forall|
            expression: ExpressionView,
            prepared: MinionModel,
            values: Map<NameView, LiteralView>,
        |
            #[trigger] tools.may_prepare(blocker_model(template, expression), Ok(prepared))
                && meaning(expression, #[trigger] (self.reading)(values)) == Value::Bool(true)
                ==> (self.solves)(prepared@.constraints, values)
    }

    /// Minion has shown every solution of the constraints that it ended with.
    pub open spec fn has_shown_every_solution<S>(
        self,
        solutions: Seq<Taken<S>>,
        states: Seq<SearchView>,
    ) -> bool {
        forall|values: Map<NameView, LiteralView>| #[trigger]
            (self.solves)(states.last().model.constraints, values) ==> is_shown(solutions, values)
    }

    /// What is taken for granted of Minion and of the modelling layer.
    pub open spec fn is_kept<E, P, V, R, T, A, C>(
        self,
        tools: &Tools<E, P, V, R, T, A, C>,
        template: ModelView,
    ) -> bool where
        E: Fn(&Expression) -> Option<Literal>,
        P: Fn(&Expression) -> Option<Expression>,
        V: Fn(&Representation, &Solution) -> Option<Literal>,
        R: Fn(Model, &Vec<&'static str>) -> Result<Model, String>,
        T: Fn(Model) -> Result<MinionModel, SolverError>,
     {
        &&& self.is_monotone()
        &&& self.is_kept_by_preparation(tools, template)
        &&& self.is_kept_by_evaluation(tools)
    }
}

/// A solution found, completed for stating dominance, does not dominate a later one.
pub open spec fn is_not_dominated<E, P, V, R, T, A, C>(
    tools: &Tools<E, P, V, R, T, A, C>,
    minion: MinionView,
    found: Map<NameView, LiteralView>,
    later: Interpretation,
) -> bool where
    E: Fn(&Expression) -> Option<Literal>,
    P: Fn(&Expression) -> Option<Expression>,
    V: Fn(&Representation, &Solution) -> Option<Literal>,
    R: Fn(Model, &Vec<&'static str>) -> Result<Model, String>,
    T: Fn(Model) -> Result<MinionModel, SolverError>,
 {
    exists|completed: Map<NameView, LiteralView>|
        {
            &&& #[trigger] may_complete(
                tools.value_up,
                minion.dominance_model_template,
                found,
                completed,
            )
            &&& relation_between(minion.dominance_expression.unwrap(), completed, later)
                == Value::Bool(false)
        }
}

/// Whatever has the constraints of a search that went on after a solution has no solution that
/// the former one dominates.
proof fn lemma_kept_out<E, P, V, R, T, A, C, S>(
    tools: &Tools<E, P, V, R, T, A, C>,
    minion: MinionView,
    found: Taken<S>,
    before: SearchView,
    after: SearchView,
    model: MinionModelView,
    values: Map<NameView, LiteralView>,
    semantics: Semantics,
) where
    E: Fn(&Expression) -> Option<Literal>,
    P: Fn(&Expression) -> Option<Expression>,
    V: Fn(&Representation, &Solution) -> Option<Literal>,
    R: Fn(Model, &Vec<&'static str>) -> Result<Model, String>,
    T: Fn(Model) -> Result<MinionModel, SolverError>,
    A: Fn(&str, &VarDomain, S) -> (Result<(), String>, S),
    C: Fn(&Constraint, S) -> (Result<(), String>, S),

    requires
        tools.may_take(
            minion,
            found.values,
            before,
            found.answer,
            found.asked,
            after,
            found.go_on,
            found.after,
        ),
        found.go_on,
        minion.dominance_expression is Some,
        minion.dominance_model_template is Some,
        semantics.is_kept(tools, minion.dominance_model_template.unwrap()),
        grown_from(model, after.model),
        (semantics.solves)(model.constraints, values),
    ensures
        is_not_dominated(tools, minion, found.values, (semantics.reading)(values)),
{
    let dominance = minion.dominance_expression.unwrap();
    let template = minion.dominance_model_template.unwrap();
    law_going_on_keeps_out_the_dominated(
        tools,
        minion,
        found.values,
        before,
        found.answer,
        found.asked,
        after,
        found.after,
    );
    let (completed, prepared) = choose|
        completed: Map<NameView, LiteralView>,
        prepared: MinionModel,
    |
        {
            &&& #[trigger] may_complete(
                tools.value_up,
                minion.dominance_model_template,
                found.values,
                completed,
            )
            &&& #[trigger] tools.may_prepare(
                blocker_model(template, tools.blocker(dominance, completed)),
                Ok(prepared),
            )
            &&& after.model.constraints == before.model.constraints + prepared@.constraints
        };
    let first = before.model.constraints;
    let middle = prepared@.constraints;
    let last = model.constraints.skip((first + middle).len() as int);
    assert(model.constraints =~= first + middle + last) by {
        assert(model.constraints.take((first + middle).len() as int) == first + middle);
        assert forall|i: int| 0 <= i < (first + middle).len() implies model.constraints[i]
            == #[trigger] (first + middle)[i] by {
            assert(model.constraints.take((first + middle).len() as int)[i]
                == model.constraints[i]);
        }
    }
    assert((semantics.solves)(first + middle + last, values));
    assert((semantics.solves)(middle, values));
    let later = (semantics.reading)(values);
    let constants = constants_of(tools.eval_constant);
    let reductions = reductions_of(tools.run_partial_evaluator);
    assert(keeps_meaning(reductions, later));
    law_blocker_keeps_out_the_dominated(dominance, completed, constants, reductions, later);
    assert(relation_between(dominance, completed, later) == Value::Bool(false));
}

/// The first part of a search is a search.
proof fn lemma_part<U, E, P, V, R, T, A, C, S>(
    tools: &Tools<E, P, V, R, T, A, C>,
    callback: U,
    minion: MinionView,
    model: MinionModelView,
    solutions: Seq<Taken<S>>,
    states: Seq<SearchView>,
    n: int,
) where
    U: Fn(&Solution, S) -> (bool, S),
    E: Fn(&Expression) -> Option<Literal>,
    P: Fn(&Expression) -> Option<Expression>,
    V: Fn(&Representation, &Solution) -> Option<Literal>,
    R: Fn(Model, &Vec<&'static str>) -> Result<Model, String>,
    T: Fn(Model) -> Result<MinionModel, SolverError>,
    A: Fn(&str, &VarDomain, S) -> (Result<(), String>, S),
    C: Fn(&Constraint, S) -> (Result<(), String>, S),

    requires
        searched(tools, callback, minion, model, solutions, states),
        0 <= n <= solutions.len(),
    ensures
        searched(tools, callback, minion, model, solutions.take(n), states.take(n + 1)),
        forall|i: int|
            0 <= i <= n ==> grown_from(states[n].model, (#[trigger] states[i]).model),
{
    let part = solutions.take(n);
    let passed = states.take(n + 1);
    assert forall|i: int| 0 <= i < part.len() implies taken(
        tools,
        callback,
        minion,
        passed[i],
        #[trigger] part[i],
        passed[i + 1],
    ) by {
        assert(part[i] == solutions[i]);
    }
    assert forall|i: int| 0 <= i < part.len() - 1 implies (#[trigger] part[i]).go_on by {
        assert(part[i] == solutions[i]);
    }
    law_whole_search(tools, callback, minion, model, part, passed);
    assert forall|i: int| 0 <= i <= n implies grown_from(
        states[n].model,
        (#[trigger] states[i]).model,
    ) by {
        assert(passed[i] == states[i]);
    }
}

/// No solution that is shown to the user is dominated by one that was shown before it, given that
/// Minion shows solutions only of its constraints, and that evaluation and preparation for Minion
/// keep what expressions mean.
pub proof fn law_no_solution_is_dominated_by_an_earlier_one<U, E, P, V, R, T, A, C, S>(
    tools: &Tools<E, P, V, R, T, A, C>,
    callback: U,
    minion: MinionView,
    model: MinionModelView,
    solutions: Seq<Taken<S>>,
    states: Seq<SearchView>,
    semantics: Semantics,
    i: int,
    j: int,
) where
    U: Fn(&Solution, S) -> (bool, S),
    E: Fn(&Expression) -> Option<Literal>,
    P: Fn(&Expression) -> Option<Expression>,
    V: Fn(&Representation, &Solution) -> Option<Literal>,
    R: Fn(Model, &Vec<&'static str>) -> Result<Model, String>,
    T: Fn(Model) -> Result<MinionModel, SolverError>,
    A: Fn(&str, &VarDomain, S) -> (Result<(), String>, S),
    C: Fn(&Constraint, S) -> (Result<(), String>, S),

    requires
        searched(tools, callback, minion, model, solutions, states),
        minion.dominance_expression is Some,
        minion.dominance_model_template is Some,
        semantics.is_kept(tools, minion.dominance_model_template.unwrap()),
        semantics.has_shown_solutions(solutions, states),
        0 <= i < j < solutions.len(),
    ensures
        is_not_dominated(
            tools,
            minion,
            solutions[i].values,
            (semantics.reading)(solutions[j].values),
        ),
{
    lemma_part(tools, callback, minion, model, solutions, states, j);
    assert(solutions[i].go_on);
    assert(grown_from(states[j].model, states[i + 1].model));
    assert((semantics.solves)(states[j].model.constraints, solutions[j].values));
    lemma_kept_out(
        tools,
        minion,
        solutions[i],
        states[i],
        states[i + 1],
        states[j].model,
        solutions[j].values,
        semantics,
    );
}

/// A solution found, completed for stating dominance, dominates a later one.
pub open spec fn is_dominated<E, P, V, R, T, A, C>(
    tools: &Tools<E, P, V, R, T, A, C>,
    minion: MinionView,
    found: Map<NameView, LiteralView>,
    later: Interpretation,
) -> bool where
    E: Fn(&Expression) -> Option<Literal>,
    P: Fn(&Expression) -> Option<Expression>,
    V: Fn(&Representation, &Solution) -> Option<Literal>,
    R: Fn(Model, &Vec<&'static str>) -> Result<Model, String>,
    T: Fn(Model) -> Result<MinionModel, SolverError>,
 {
    exists|completed: Map<NameView, LiteralView>|
        {
            &&& #[trigger] may_complete(
                tools.value_up,
                minion.dominance_model_template,
                found,
                completed,
            )
            &&& relation_between(minion.dominance_expression.unwrap(), completed, later)
                == Value::Bool(true)
        }
}

/// What none of the first `n` solutions dominates is left by the constraints after them.
proof fn lemma_left<U, E, P, V, R, T, A, C, S>(
    tools: &Tools<E, P, V, R, T, A, C>,
    callback: U,
    minion: MinionView,
    model: MinionModelView,
    solutions: Seq<Taken<S>>,
    states: Seq<SearchView>,
    semantics: Semantics,
    values: Map<NameView, LiteralView>,
    n: nat,
) where
    U: Fn(&Solution, S) -> (bool, S),
    E: Fn(&Expression) -> Option<Literal>,
    P: Fn(&Expression) -> Option<Expression>,
    V: Fn(&Representation, &Solution) -> Option<Literal>,
    R: Fn(Model, &Vec<&'static str>) -> Result<Model, String>,
    T: Fn(Model) -> Result<MinionModel, SolverError>,
    A: Fn(&str, &VarDomain, S) -> (Result<(), String>, S),
    C: Fn(&Constraint, S) -> (Result<(), String>, S),

    requires
        searched(tools, callback, minion, model, solutions, states),
        minion.dominance_expression is Some,
        minion.dominance_model_template is Some,
        semantics.is_compositional(),
        semantics.is_met_by_preparation(tools, minion.dominance_model_template.unwrap()),
        semantics.is_kept_by_evaluation(tools),
        (semantics.solves)(model.constraints, values),
        forall|found: Map<NameView, LiteralView>|
            (#[trigger] relation_between(
                minion.dominance_expression.unwrap(),
                found,
                (semantics.reading)(values),
            )) is Bool,
        n <= solutions.len(),
        forall|i: int|
            0 <= i < n ==> (#[trigger] solutions[i]).go_on && !is_dominated(
                tools,
                minion,
                solutions[i].values,
                (semantics.reading)(values),
            ),
    ensures
        (semantics.solves)(states[n as int].model.constraints, values),
    decreases n,
{
    if n > 0 {
        let i = n - 1;
        let dominance = minion.dominance_expression.unwrap();
        let template = minion.dominance_model_template.unwrap();
        let later = (semantics.reading)(values);
        lemma_left(
            tools,
            callback,
            minion,
            model,
            solutions,
            states,
            semantics,
            values,
            (n - 1) as nat,
        );
        let found = solutions[i];
        assert(found.go_on);
        law_going_on_keeps_out_the_dominated(
            tools,
            minion,
            found.values,
            states[i],
            found.answer,
            found.asked,
            states[i + 1],
            found.after,
        );
        let (completed, prepared) = choose|
            completed: Map<NameView, LiteralView>,
            prepared: MinionModel,
        |
            {
                &&& #[trigger] may_complete(
                    tools.value_up,
                    minion.dominance_model_template,
                    found.values,
                    completed,
                )
                &&& #[trigger] tools.may_prepare(
                    blocker_model(template, tools.blocker(dominance, completed)),
                    Ok(prepared),
                )
                &&& states[i + 1].model.constraints == states[i].model.constraints
                    + prepared@.constraints
            };
        assert(relation_between(dominance, completed, later) is Bool);
        assert(relation_between(dominance, completed, later) == Value::Bool(false));
        let constants = constants_of(tools.eval_constant);
        let reductions = reductions_of(tools.run_partial_evaluator);
        assert(keeps_meaning(reductions, later));
        law_blocker_keeps_out_the_dominated(dominance, completed, constants, reductions, later);
        assert((semantics.solves)(prepared@.constraints, values));
        assert((semantics.solves)(
            states[i].model.constraints + prepared@.constraints,
            values,
        ));
    }
}

/// Only dominated solutions are kept from the user: of a search that ran to its end, a solution of
/// the loaded constraints was shown, or one that was shown dominates it. Given are that Minion
/// shows every solution of its constraints, that constraints that can hold by themselves can hold
/// together, that evaluation and preparation for Minion keep what expressions mean, and that the
/// dominance relation is true or false.
pub proof fn law_only_dominated_solutions_are_kept_out<U, E, P, V, R, T, A, C, S>(
    tools: &Tools<E, P, V, R, T, A, C>,
    callback: U,
    minion: MinionView,
    model: MinionModelView,
    solutions: Seq<Taken<S>>,
    states: Seq<SearchView>,
    semantics: Semantics,
    values: Map<NameView, LiteralView>,
) where
    U: Fn(&Solution, S) -> (bool, S),
    E: Fn(&Expression) -> Option<Literal>,
    P: Fn(&Expression) -> Option<Expression>,
    V: Fn(&Representation, &Solution) -> Option<Literal>,
    R: Fn(Model, &Vec<&'static str>) -> Result<Model, String>,
    T: Fn(Model) -> Result<MinionModel, SolverError>,
    A: Fn(&str, &VarDomain, S) -> (Result<(), String>, S),
    C: Fn(&Constraint, S) -> (Result<(), String>, S),

    requires
        searched(tools, callback, minion, model, solutions, states),
        solutions.len() > 0 ==> solutions.last().go_on,
        minion.dominance_expression is Some,
        minion.dominance_model_template is Some,
        semantics.is_compositional(),
        semantics.is_met_by_preparation(tools, minion.dominance_model_template.unwrap()),
        semantics.is_kept_by_evaluation(tools),
        semantics.has_shown_every_solution(solutions, states),
        (semantics.solves)(model.constraints, values),
        forall|found: Map<NameView, LiteralView>|
            (#[trigger] relation_between(
                minion.dominance_expression.unwrap(),
                found,
                (semantics.reading)(values),
            )) is Bool,
    ensures
        is_shown(solutions, values) || exists|i: int|
            0 <= i < solutions.len() && is_dominated(
                tools,
                minion,
                (#[trigger] solutions[i]).values,
                (semantics.reading)(values),
            ),
{
    if !(exists|i: int|
        0 <= i < solutions.len() && is_dominated(
            tools,
            minion,
            (#[trigger] solutions[i]).values,
            (semantics.reading)(values),
        )) {
        assert forall|i: int| 0 <= i < solutions.len() implies (#[trigger] solutions[i]).go_on by {
            if i == solutions.len() - 1 {
                assert(solutions[i] == solutions.last());
            }
        }
        lemma_left(
            tools,
            callback,
            minion,
            model,
            solutions,
            states,
            semantics,
            values,
            solutions.len(),
        );
        assert(states.last() == states[solutions.len() as int]);
        assert((semantics.solves)(states.last().model.constraints, values));
    }
}

/// The constraints of some models for Minion, one model after the other.
pub open spec fn all_constraints(models: Seq<MinionModel>) -> Seq<ConstraintView>
    decreases models.len(),
{
    if models.len() == 0 {
        Seq::empty()
    } else {
        all_constraints(models.drop_last()) + models.last()@.constraints
    }
}

/// This may be the model for Minion of the constraint that keeps out what a solution dominates.
pub open spec fn may_keep_out<E, P, V, R, T, A, C>(
    tools: &Tools<E, P, V, R, T, A, C>,
    minion: MinionView,
    values: Map<NameView, LiteralView>,
    prepared: MinionModel,
) -> bool where
    E: Fn(&Expression) -> Option<Literal>,
    P: Fn(&Expression) -> Option<Expression>,
    V: Fn(&Representation, &Solution) -> Option<Literal>,
    R: Fn(Model, &Vec<&'static str>) -> Result<Model, String>,
    T: Fn(Model) -> Result<MinionModel, SolverError>,
 {
    exists|completed: Map<NameView, LiteralView>|
        {
            &&& #[trigger] may_complete(
                tools.value_up,
                minion.dominance_model_template,
                values,
                completed,
            )
            &&& tools.may_prepare(
                blocker_model(
                    minion.dominance_model_template.unwrap(),
                    tools.blocker(minion.dominance_expression.unwrap(), completed),
                ),
                Ok(prepared),
            )
        }
}

/// Each of some models may be that of the constraint that keeps out what the solution in its place
/// dominates.
pub open spec fn may_keep_out_all<E, P, V, R, T, A, C, S>(
    tools: &Tools<E, P, V, R, T, A, C>,
    minion: MinionView,
    solutions: Seq<Taken<S>>,
    blockers: Seq<MinionModel>,
) -> bool where
    E: Fn(&Expression) -> Option<Literal>,
    P: Fn(&Expression) -> Option<Expression>,
    V: Fn(&Representation, &Solution) -> Option<Literal>,
    R: Fn(Model, &Vec<&'static str>) -> Result<Model, String>,
    T: Fn(Model) -> Result<MinionModel, SolverError>,
 {
    forall|i: int|
        0 <= i < blockers.len() ==> may_keep_out(
            tools,
            minion,
            solutions[i].values,
            #[trigger] blockers[i],
        )
}

/// A solution after which the search goes on adds the constraints of one such model.
proof fn lemma_one_more_blocker<E, P, V, R, T, A, C, S>(
    tools: &Tools<E, P, V, R, T, A, C>,
    minion: MinionView,
    before: SearchView,
    found: Taken<S>,
    after: SearchView,
) -> (prepared: MinionModel) where
    E: Fn(&Expression) -> Option<Literal>,
    P: Fn(&Expression) -> Option<Expression>,
    V: Fn(&Representation, &Solution) -> Option<Literal>,
    R: Fn(Model, &Vec<&'static str>) -> Result<Model, String>,
    T: Fn(Model) -> Result<MinionModel, SolverError>,
    A: Fn(&str, &VarDomain, S) -> (Result<(), String>, S),
    C: Fn(&Constraint, S) -> (Result<(), String>, S),

    requires
        tools.may_take(
            minion,
            found.values,
            before,
            found.answer,
            found.asked,
            after,
            true,
            found.after,
        ),
        minion.dominance_expression is Some,
        minion.dominance_model_template is Some,
    ensures
        may_keep_out(tools, minion, found.values, prepared),
        after.model.constraints == before.model.constraints + prepared@.constraints,
{
    law_going_on_keeps_out_the_dominated(
        tools,
        minion,
        found.values,
        before,
        found.answer,
        found.asked,
        after,
        found.after,
    );
    let (completed, prepared) = choose|
        completed: Map<NameView, LiteralView>,
        prepared: MinionModel,
    |
        {
            &&& #[trigger] may_complete(
                tools.value_up,
                minion.dominance_model_template,
                found.values,
                completed,
            )
            &&& #[trigger] tools.may_prepare(
                blocker_model(
                    minion.dominance_model_template.unwrap(),
                    tools.blocker(minion.dominance_expression.unwrap(), completed),
                ),
                Ok(prepared),
            )
            &&& after.model.constraints == before.model.constraints + prepared@.constraints
        };
    assert(may_keep_out(tools, minion, found.values, prepared));
    prepared
}

/// One more model, of the solution in its place, behind the others.
proof fn lemma_blockers_pushed<E, P, V, R, T, A, C, S>(
    tools: &Tools<E, P, V, R, T, A, C>,
    minion: MinionView,
    solutions: Seq<Taken<S>>,
    blockers: Seq<MinionModel>,
    prepared: MinionModel,
) where
    E: Fn(&Expression) -> Option<Literal>,
    P: Fn(&Expression) -> Option<Expression>,
    V: Fn(&Representation, &Solution) -> Option<Literal>,
    R: Fn(Model, &Vec<&'static str>) -> Result<Model, String>,
    T: Fn(Model) -> Result<MinionModel, SolverError>,

    requires
        may_keep_out_all(tools, minion, solutions, blockers),
        blockers.len() < solutions.len(),
        may_keep_out(tools, minion, solutions[blockers.len() as int].values, prepared),
    ensures
        may_keep_out_all(tools, minion, solutions, blockers.push(prepared)),
        all_constraints(blockers.push(prepared)) == all_constraints(blockers)
            + prepared@.constraints,
{
    let longer = blockers.push(prepared);
    assert(longer.drop_last() =~= blockers);
    assert forall|k: int| 0 <= k < longer.len() implies may_keep_out(
        tools,
        minion,
        solutions[k].values,
        #[trigger] longer[k],
    ) by {
        if k < blockers.len() {
            assert(longer[k] == blockers[k]);
        }
    }
}

/// In the course of a search the model holds the loaded constraints, followed by those that keep
/// out what each solution dominates, solution by solution, and no others: in the state before
/// solution `n`, or after the last solution if the search went on then.
#[verifier::spinoff_prover]
#[verifier::rlimit(40)]
pub proof fn law_model_holds_a_blocker_for_each_solution<U, E, P, V, R, T, A, C, S>(
    tools: &Tools<E, P, V, R, T, A, C>,
    callback: U,
    minion: MinionView,
    model: MinionModelView,
    solutions: Seq<Taken<S>>,
    states: Seq<SearchView>,
    n: nat,
) where
    U: Fn(&Solution, S) -> (bool, S),
    E: Fn(&Expression) -> Option<Literal>,
    P: Fn(&Expression) -> Option<Expression>,
    V: Fn(&Representation, &Solution) -> Option<Literal>,
    R: Fn(Model, &Vec<&'static str>) -> Result<Model, String>,
    T: Fn(Model) -> Result<MinionModel, SolverError>,
    A: Fn(&str, &VarDomain, S) -> (Result<(), String>, S),
    C: Fn(&Constraint, S) -> (Result<(), String>, S),

    requires
        searched(tools, callback, minion, model, solutions, states),
        minion.dominance_expression is Some,
        minion.dominance_model_template is Some,
        n < solutions.len() || (n == solutions.len() && (n > 0 ==> solutions.last().go_on)),
    ensures
        exists|blockers: Seq<MinionModel>|
            {
                &&& blockers.len() == n
                &&& #[trigger] may_keep_out_all(tools, minion, solutions, blockers)
                &&& states[n as int].model.constraints == model.constraints + all_constraints(
                    blockers,
                )
            },
        n < solutions.len() && !solutions[n as int].answer ==> states[n as int + 1].model
            == states[n as int].model,
    decreases n,
{
    if n == 0 {
        let none = Seq::<MinionModel>::empty();
        assert(may_keep_out_all(tools, minion, solutions, none));
        assert(model.constraints + all_constraints(none) =~= model.constraints);
    } else {
        let i = n - 1;
        let found = solutions[i];
        assert(found.go_on);
        law_model_holds_a_blocker_for_each_solution(
            tools,
            callback,
            minion,
            model,
            solutions,
            states,
            (n - 1) as nat,
        );
        let earlier = choose|blockers: Seq<MinionModel>|
            {
                &&& blockers.len() == i
                &&& #[trigger] may_keep_out_all(tools, minion, solutions, blockers)
                &&& states[i].model.constraints == model.constraints + all_constraints(blockers)
            };
        assert(taken(tools, callback, minion, states[i], found, states[i + 1]));
        let prepared = lemma_one_more_blocker(tools, minion, states[i], found, states[i + 1]);
        lemma_blockers_pushed(tools, minion, solutions, earlier, prepared);
        assert(states[n as int].model.constraints =~= model.constraints + all_constraints(
            earlier.push(prepared),
        ));
    }
    if n < solutions.len() {
        let next = n as int + 1;
        assert(taken(tools, callback, minion, states[n as int], solutions[n as int], states[next]));
    }
}

/// A second search without a load in between goes on from where the first one ended: what is
/// known of dominance is the same, and the model holds, at any time of the second search, all
/// that it held at any time of the first.
pub proof fn law_second_search_goes_on<U, E, P, V, R, T, A, C, S>(
    first_tools: &Tools<E, P, V, R, T, A, C>,
    second_tools: &Tools<E, P, V, R, T, A, C>,
    first_callback: U,
    second_callback: U,
    minion: MinionView,
    first: Seq<Taken<S>>,
    first_states: Seq<SearchView>,
    second: Seq<Taken<S>>,
    second_states: Seq<SearchView>,
) where
    U: Fn(&Solution, S) -> (bool, S),
    E: Fn(&Expression) -> Option<Literal>,
    P: Fn(&Expression) -> Option<Expression>,
    V: Fn(&Representation, &Solution) -> Option<Literal>,
    R: Fn(Model, &Vec<&'static str>) -> Result<Model, String>,
    T: Fn(Model) -> Result<MinionModel, SolverError>,
    A: Fn(&str, &VarDomain, S) -> (Result<(), String>, S),
    C: Fn(&Constraint, S) -> (Result<(), String>, S),

    requires
        minion.model is Some,
        searched(first_tools, first_callback, minion, minion.model.unwrap(), first, first_states),
        ({
            let between = after_search(minion, first_states.last(), Ok::<(), MinionError>(()));
            searched(
                second_tools,
                second_callback,
                between,
                between.model.unwrap(),
                second,
                second_states,
            )
        }),
    ensures
        ({
            let between = after_search(minion, first_states.last(), Ok::<(), MinionError>(()));
            let after = after_search(between, second_states.last(), Ok::<(), MinionError>(()));
            &&& between.dominance_expression == minion.dominance_expression
            &&& between.dominance_model_template == minion.dominance_model_template
            &&& after.dominance_expression == minion.dominance_expression
            &&& after.dominance_model_template == minion.dominance_model_template
            &&& grown_from(between.model.unwrap(), minion.model.unwrap())
            &&& grown_from(after.model.unwrap(), between.model.unwrap())
            &&& second_states[0].model == first_states.last().model
        }),
        forall|i: int, j: int|
            0 <= i < first_states.len() && 0 <= j < second_states.len() ==> grown_from(
                (#[trigger] second_states[j]).model,
                (#[trigger] first_states[i]).model,
            ),
{
    let between = after_search(minion, first_states.last(), Ok::<(), MinionError>(()));
    let model = between.model.unwrap();
    law_whole_search(
        first_tools,
        first_callback,
        minion,
        minion.model.unwrap(),
        first,
        first_states,
    );
    law_whole_search(second_tools, second_callback, between, model, second, second_states);
    assert(grown_from(first_states.last().model, first_states[0].model));
    assert(grown_from(second_states.last().model, second_states[0].model));
    assert forall|i: int, j: int|
        0 <= i < first_states.len() && 0 <= j < second_states.len() implies grown_from(
        (#[trigger] second_states[j]).model,
        (#[trigger] first_states[i]).model,
    ) by {
        lemma_part(second_tools, second_callback, between, model, second, second_states, j);
        assert(grown_from(second_states[j].model, second_states[0].model));
        assert(grown_from(first_states.last().model, first_states[i].model));
        lemma_grown_further(
            second_states[j].model,
            first_states.last().model,
            first_states[i].model,
        );
    }
}

/// No solution of a second search, without a load in between, is dominated by one of the first
/// after which that one went on.
pub proof fn law_second_search_shows_nothing_dominated<U, E, P, V, R, T, A, C, S>(
    first_tools: &Tools<E, P, V, R, T, A, C>,
    second_tools: &Tools<E, P, V, R, T, A, C>,
    first_callback: U,
    second_callback: U,
    minion: MinionView,
    first: Seq<Taken<S>>,
    first_states: Seq<SearchView>,
    second: Seq<Taken<S>>,
    second_states: Seq<SearchView>,
    semantics: Semantics,
    i: int,
    j: int,
) where
    U: Fn(&Solution, S) -> (bool, S),
    E: Fn(&Expression) -> Option<Literal>,
    P: Fn(&Expression) -> Option<Expression>,
    V: Fn(&Representation, &Solution) -> Option<Literal>,
    R: Fn(Model, &Vec<&'static str>) -> Result<Model, String>,
    T: Fn(Model) -> Result<MinionModel, SolverError>,
    A: Fn(&str, &VarDomain, S) -> (Result<(), String>, S),
    C: Fn(&Constraint, S) -> (Result<(), String>, S),

    requires
        minion.model is Some,
        minion.dominance_expression is Some,
        minion.dominance_model_template is Some,
        searched(first_tools, first_callback, minion, minion.model.unwrap(), first, first_states),
        ({
            let between = after_search(minion, first_states.last(), Ok::<(), MinionError>(()));
            searched(
                second_tools,
                second_callback,
                between,
                between.model.unwrap(),
                second,
                second_states,
            )
        }),
        semantics.is_kept(first_tools, minion.dominance_model_template.unwrap()),
        semantics.has_shown_solutions(second, second_states),
        0 <= i < first.len(),
        first[i].go_on,
        0 <= j < second.len(),
    ensures
        is_not_dominated(
            first_tools,
            minion,
            first[i].values,
            (semantics.reading)(second[j].values),
        ),
{
    law_second_search_goes_on(
        first_tools,
        second_tools,
        first_callback,
        second_callback,
        minion,
        first,
        first_states,
        second,
        second_states,
    );
    assert(grown_from(second_states[j].model, first_states[i + 1].model));
    assert((semantics.solves)(second_states[j].model.constraints, second[j].values));
    lemma_kept_out(
        first_tools,
        minion,
        first[i],
        first_states[i],
        first_states[i + 1],
        second_states[j].model,
        second[j].values,
        semantics,
    );
}

} // verus!
