//! What holds of a search from solution to solution.
use crate::adaptor::{
    begun, blocker_model, may_answer, may_complete, readable, status_of, told, translated,
    MinionView, SearchComplete, SearchIncomplete, SearchStatus, SearchView, Tools,
};
use crate::error::{SolverError, SolverErrorView};
use crate::expression::{Expression, ExpressionView, Literal, LiteralView};
use crate::injection::{conversed, injected, may_inject, BlockerError, InjectionView};
use crate::injection_laws::{begins_with, law_injection_only_adds};
use crate::minion_ast::{Constant, Constraint, MinionModel, MinionModelView, VarDomain};
use crate::model::{Model, ModelView, Representation};
use crate::name::{named, NameView};
use crate::solution::Solution;
use vstd::prelude::*;

verus! {

/// What holds of every search: it is told to stop if a dominance constraint could not be added,
/// and it is told to stop only after a solution.
pub open spec fn consistent(search: SearchView) -> bool {
    &&& search.hook_error is Some ==> search.user_terminated
    &&& search.user_terminated ==> search.any_solutions
}

/// `after` is `before` with nothing taken away: variables and constraints come behind the others.
pub open spec fn grown_from(after: MinionModelView, before: MinionModelView) -> bool {
    &&& begins_with(after.constraints, before.constraints)
    &&& begins_with(after.named_variables.variable_order, before.named_variables.variable_order)
    &&& begins_with(after.named_variables.domains, before.named_variables.domains)
    &&& after.named_variables.search_order == before.named_variables.search_order
    &&& before.named_variables.wf() ==> after.named_variables.wf()
}

proof fn lemma_unchanged(model: MinionModelView)
    ensures
        grown_from(model, model),
{
    assert(model.constraints.take(model.constraints.len() as int) =~= model.constraints);
    assert(model.named_variables.variable_order.take(
        model.named_variables.variable_order.len() as int,
    ) =~= model.named_variables.variable_order);
    assert(model.named_variables.domains.take(model.named_variables.domains.len() as int)
        =~= model.named_variables.domains);
}

proof fn lemma_injection_grows<A, C, S>(
    add_variable: A,
    add_constraint: C,
    before: MinionModelView,
    blocker: Result<MinionModel, BlockerError>,
    from: S,
    after: MinionModelView,
    outcome: Result<(), SolverErrorView>,
    to: S,
) where
    A: Fn(&str, &VarDomain, S) -> (Result<(), String>, S),
    C: Fn(&Constraint, S) -> (Result<(), String>, S),

    requires
        may_inject(add_variable, add_constraint, before, blocker, from, after, outcome, to),
    ensures
        grown_from(after, before),
{
    match blocker {
        Ok(blocker) => {
            let (replies, passed) = choose|replies: Seq<Result<(), Seq<char>>>, passed: Seq<S>|
                #[trigger] conversed(
                    add_variable,
                    add_constraint,
                    InjectionView::start(before, blocker@),
                    before,
                    replies,
                    passed,
                ) && passed[0] == from && passed.last() == to && injected(
                    InjectionView::start(before, blocker@),
                    before,
                    replies,
                    after,
                    outcome,
                );
            law_injection_only_adds(before, blocker@, replies, after, outcome);
            let count = choose|count: int|
                0 <= count <= blocker@.constraints.len() && after.constraints
                    == before.constraints + #[trigger] blocker@.constraints.take(count);
            assert((before.constraints + blocker@.constraints.take(count)).take(
                before.constraints.len() as int,
            ) =~= before.constraints);
        },
        Err(_) => {
            lemma_unchanged(before);
        },
    }
}

/// A search stays consistent from solution to solution. A solution is remembered for good. The
/// search is told to stop just where it is to be known as stopped, and with a solution the model
/// grows and loses nothing, whether the search goes on or not.
pub proof fn law_taking_a_solution<E, P, V, R, T, A, C, S>(
    tools: &Tools<E, P, V, R, T, A, C>,
    minion: MinionView,
    values: Map<NameView, LiteralView>,
    before: SearchView,
    answer: bool,
    from: S,
    after: SearchView,
    go_on: bool,
    to: S,
) where
    E: Fn(&Expression) -> Option<Literal>,
    P: Fn(&Expression) -> Option<Expression>,
    V: Fn(&Representation, &Solution) -> Option<Literal>,
    R: Fn(Model, &Vec<&'static str>) -> Result<Model, String>,
    T: Fn(Model) -> Result<MinionModel, SolverError>,
    A: Fn(&str, &VarDomain, S) -> (Result<(), String>, S),
    C: Fn(&Constraint, S) -> (Result<(), String>, S),

    requires
        tools.may_take(minion, values, before, answer, from, after, go_on, to),
        consistent(before),
        !before.user_terminated,
    ensures
        consistent(after),
        after.any_solutions,
        after.user_terminated == !go_on,
        go_on ==> answer && after.hook_error is None,
        !go_on && answer ==> after.hook_error is Some,
        !answer ==> after.model == before.model && after.hook_error is None && to == from,
        grown_from(after.model, before.model),
{
    if answer {
        let (grown, outcome) = choose|grown: MinionModelView, outcome: Result<(), SolverErrorView>|
            {
                &&& #[trigger] tools.may_go_on(
                    minion,
                    values,
                    before.model,
                    from,
                    grown,
                    outcome,
                    to,
                )
                &&& match outcome {
                    Ok(()) => go_on && after == (SearchView {
                        model: grown,
                        any_solutions: true,
                        ..before
                    }),
                    Err(error) => !go_on && after == told(
                        SearchView {
                            model: grown,
                            hook_error: Some(error),
                            any_solutions: true,
                            ..before
                        },
                        false,
                    ),
                }
            };
        let completed = choose|completed: Map<NameView, LiteralView>|
            {
                &&& #[trigger] may_complete(
                    tools.value_up,
                    minion.dominance_model_template,
                    values,
                    completed,
                )
                &&& match (minion.dominance_expression, minion.dominance_model_template) {
                    (Some(dominance), Some(template)) => tools.may_block(
                        dominance,
                        template,
                        completed,
                        before.model,
                        from,
                        grown,
                        outcome,
                        to,
                    ),
                    _ => grown == before.model && outcome == Ok::<(), SolverErrorView>(()) && to
                        == from,
                }
            };
        match (minion.dominance_expression, minion.dominance_model_template) {
            (Some(dominance), Some(template)) => {
                let prepared = choose|prepared: Result<MinionModel, BlockerError>|
                    {
                        &&& #[trigger] tools.may_prepare(
                            blocker_model(
                                template,
                                tools.blocker(dominance, completed),
                            ),
                            prepared,
                        )
                        &&& may_inject(
                            tools.add_variable,
                            tools.add_constraint,
                            before.model,
                            prepared,
                            from,
                            grown,
                            outcome,
                            to,
                        )
                    };
                lemma_injection_grows(
                    tools.add_variable,
                    tools.add_constraint,
                    before.model,
                    prepared,
                    from,
                    grown,
                    outcome,
                    to,
                );
            },
            _ => {
                lemma_unchanged(before.model);
            },
        }
    } else {
        lemma_unchanged(before.model);
    }
}

/// Where a search with a dominance relation goes on after a solution, its model has grown by all
/// the constraints of what the constraint that keeps out the dominated solutions was prepared to,
/// and by no others.
pub proof fn law_going_on_keeps_out_the_dominated<E, P, V, R, T, A, C, S>(
    tools: &Tools<E, P, V, R, T, A, C>,
    minion: MinionView,
    values: Map<NameView, LiteralView>,
    before: SearchView,
    answer: bool,
    from: S,
    after: SearchView,
    to: S,
) where
    E: Fn(&Expression) -> Option<Literal>,
    P: Fn(&Expression) -> Option<Expression>,
    V: Fn(&Representation, &Solution) -> Option<Literal>,
    R: Fn(Model, &Vec<&'static str>) -> Result<Model, String>,
    T: Fn(Model) -> Result<MinionModel, SolverError>,
    A: Fn(&str, &VarDomain, S) -> (Result<(), String>, S),
    C: Fn(&Constraint, S) -> (Result<(), String>, S),

    requires
        tools.may_take(minion, values, before, answer, from, after, true, to),
        minion.dominance_expression is Some,
        minion.dominance_model_template is Some,
    ensures
        exists|completed: Map<NameView, LiteralView>, prepared: MinionModel|
            {
                &&& #[trigger] may_complete(
                    tools.value_up,
                    minion.dominance_model_template,
                    values,
                    completed,
                )
                &&& #[trigger] tools.may_prepare(
                    blocker_model(
                        minion.dominance_model_template.unwrap(),
                        tools.blocker(minion.dominance_expression.unwrap(), completed),
                    ),
                    Ok(prepared),
                )
                &&& after.model.constraints == before.model.constraints + prepared@.constraints
            },
{
    let dominance = minion.dominance_expression.unwrap();
    let template = minion.dominance_model_template.unwrap();
    let outcome = Ok::<(), SolverErrorView>(());
    assert(tools.may_go_on(minion, values, before.model, from, after.model, outcome, to));
    let completed = choose|completed: Map<NameView, LiteralView>|
        {
            &&& #[trigger] may_complete(
                tools.value_up,
                minion.dominance_model_template,
                values,
                completed,
            )
            &&& tools.may_block(
                dominance,
                template,
                completed,
                before.model,
                from,
                after.model,
                outcome,
                to,
            )
        };
    let prepared = choose|prepared: Result<MinionModel, BlockerError>|
        {
            &&& #[trigger] tools.may_prepare(
                blocker_model(template, tools.blocker(dominance, completed)),
                prepared,
            )
            &&& may_inject(
                tools.add_variable,
                tools.add_constraint,
                before.model,
                prepared,
                from,
                after.model,
                outcome,
                to,
            )
        };
    assert(prepared is Ok);
    let blocker = prepared.unwrap();
    let (replies, passed) = choose|replies: Seq<Result<(), Seq<char>>>, passed: Seq<S>|
        #[trigger] conversed(
            tools.add_variable,
            tools.add_constraint,
            InjectionView::start(before.model, blocker@),
            before.model,
            replies,
            passed,
        ) && passed[0] == from && passed.last() == to && injected(
            InjectionView::start(before.model, blocker@),
            before.model,
            replies,
            after.model,
            outcome,
        );
    law_injection_only_adds(before.model, blocker@, replies, after.model, outcome);
    assert(prepared == Ok::<MinionModel, BlockerError>(blocker));
}

/// The constraints, the clauses and the dominance relation of the model that dominance
/// constraints are stated over do not count: with two such models that have the same declarations
/// and rule sets, the same can be done with a solution, and the same comes of it.
pub proof fn law_only_declarations_of_the_template_count<E, P, V, R, T, A, C, S>(
    tools: &Tools<E, P, V, R, T, A, C>,
    dominance: ExpressionView,
    one: ModelView,
    other: ModelView,
    solution: Map<NameView, LiteralView>,
    before: MinionModelView,
    from: S,
    after: MinionModelView,
    outcome: Result<(), SolverErrorView>,
    to: S,
) where
    E: Fn(&Expression) -> Option<Literal>,
    P: Fn(&Expression) -> Option<Expression>,
    V: Fn(&Representation, &Solution) -> Option<Literal>,
    R: Fn(Model, &Vec<&'static str>) -> Result<Model, String>,
    T: Fn(Model) -> Result<MinionModel, SolverError>,
    A: Fn(&str, &VarDomain, S) -> (Result<(), String>, S),
    C: Fn(&Constraint, S) -> (Result<(), String>, S),

    requires
        one.symbols == other.symbols,
        one.rule_sets == other.rule_sets,
    ensures
        blocker_model(one, tools.blocker(dominance, solution)) == blocker_model(
            other,
            tools.blocker(dominance, solution),
        ),
        tools.can_block(dominance, one, solution, before, from) == tools.can_block(
            dominance,
            other,
            solution,
            before,
            from,
        ),
        tools.may_block(dominance, one, solution, before, from, after, outcome, to)
            == tools.may_block(dominance, other, solution, before, from, after, outcome, to),
        forall|completed: Map<NameView, LiteralView>|
            may_complete(tools.value_up, Some(one), solution, completed) == may_complete(
                tools.value_up,
                Some(other),
                solution,
                completed,
            ),
{
}

/// Without a dominance relation nothing is requested of the search, the model stays as it is,
/// nothing can go wrong, and the search goes on just where the user wants it to.
pub proof fn law_without_dominance_nothing_is_added<E, P, V, R, T, A, C, S>(
    tools: &Tools<E, P, V, R, T, A, C>,
    minion: MinionView,
    values: Map<NameView, LiteralView>,
    before: SearchView,
    answer: bool,
    from: S,
    after: SearchView,
    go_on: bool,
    to: S,
) where
    E: Fn(&Expression) -> Option<Literal>,
    P: Fn(&Expression) -> Option<Expression>,
    V: Fn(&Representation, &Solution) -> Option<Literal>,
    R: Fn(Model, &Vec<&'static str>) -> Result<Model, String>,
    T: Fn(Model) -> Result<MinionModel, SolverError>,
    A: Fn(&str, &VarDomain, S) -> (Result<(), String>, S),
    C: Fn(&Constraint, S) -> (Result<(), String>, S),

    requires
        tools.may_take(minion, values, before, answer, from, after, go_on, to),
        minion.dominance_expression is None,
    ensures
        go_on == answer,
        to == from,
        after == told(SearchView { any_solutions: true, ..before }, answer),
{
}

/// A solution as a search has taken it: its values, what the user answered, and whether the search
/// was to go on.
pub struct Taken<S> {
    pub values: Map<NameView, LiteralView>,
    pub answer: bool,
    pub go_on: bool,
    /// What the user was asked on.
    pub before: S,
    /// What the user left, and the requests were made on.
    pub asked: S,
    /// What the requests left.
    pub after: S,
}

/// A search in state `before` may have taken a solution so, and be in state `after` then: the user
/// was asked once, and what follows from the answer was done.
pub open spec fn taken<U, E, P, V, R, T, A, C, S>(
    tools: &Tools<E, P, V, R, T, A, C>,
    callback: U,
    minion: MinionView,
    before: SearchView,
    solution: Taken<S>,
    after: SearchView,
) -> bool where
    U: Fn(&Solution, S) -> (bool, S),
    E: Fn(&Expression) -> Option<Literal>,
    P: Fn(&Expression) -> Option<Expression>,
    V: Fn(&Representation, &Solution) -> Option<Literal>,
    R: Fn(Model, &Vec<&'static str>) -> Result<Model, String>,
    T: Fn(Model) -> Result<MinionModel, SolverError>,
    A: Fn(&str, &VarDomain, S) -> (Result<(), String>, S),
    C: Fn(&Constraint, S) -> (Result<(), String>, S),
 {
    &&& may_answer(
        callback,
        solution.values,
        solution.before,
        solution.answer,
        solution.asked,
    )
    &&& tools.may_take(
        minion,
        solution.values,
        before,
        solution.answer,
        solution.asked,
        after,
        solution.go_on,
        solution.after,
    )
}

/// A search that began on `model` may have come through these states, with these solutions: one
/// state before each solution, and one after the last. The user was asked of each solution once,
/// and after every solution but the last the search was to go on.
pub open spec fn searched<U, E, P, V, R, T, A, C, S>(
    tools: &Tools<E, P, V, R, T, A, C>,
    callback: U,
    minion: MinionView,
    model: MinionModelView,
    solutions: Seq<Taken<S>>,
    states: Seq<SearchView>,
) -> bool where
    U: Fn(&Solution, S) -> (bool, S),
    E: Fn(&Expression) -> Option<Literal>,
    P: Fn(&Expression) -> Option<Expression>,
    V: Fn(&Representation, &Solution) -> Option<Literal>,
    R: Fn(Model, &Vec<&'static str>) -> Result<Model, String>,
    T: Fn(Model) -> Result<MinionModel, SolverError>,
    A: Fn(&str, &VarDomain, S) -> (Result<(), String>, S),
    C: Fn(&Constraint, S) -> (Result<(), String>, S),
 {
    &&& states.len() == solutions.len() + 1
    &&& states[0] == begun(model)
    &&& forall|i: int|
        0 <= i < solutions.len() ==> taken(
            tools,
            callback,
            minion,
            states[i],
            #[trigger] solutions[i],
            states[i + 1],
        )
    &&& forall|i: int| 0 <= i < solutions.len() - 1 ==> (#[trigger] solutions[i]).go_on
}

/// Growth goes on from growth.
pub proof fn lemma_grown_further(
    last: MinionModelView,
    middle: MinionModelView,
    first: MinionModelView,
)
    requires
        grown_from(last, middle),
        grown_from(middle, first),
    ensures
        grown_from(last, first),
{
    assert(last.constraints.take(first.constraints.len() as int) =~= middle.constraints.take(
        first.constraints.len() as int,
    ));
    let (a, b, c) = (last.named_variables, middle.named_variables, first.named_variables);
    assert(a.variable_order.take(c.variable_order.len() as int) =~= b.variable_order.take(
        c.variable_order.len() as int,
    ));
    assert(a.domains.take(c.domains.len() as int) =~= b.domains.take(c.domains.len() as int));
}

/// How a whole search ends. The model holds all that it held at any time before. The status tells
/// whether there was a solution, and whether the search was to stop after the last one; there is
/// an error just where the user wanted to go on then and the search was to stop all the same.
pub proof fn law_whole_search<U, E, P, V, R, T, A, C, S>(
    tools: &Tools<E, P, V, R, T, A, C>,
    callback: U,
    minion: MinionView,
    model: MinionModelView,
    solutions: Seq<Taken<S>>,
    states: Seq<SearchView>,
) where
    U: Fn(&Solution, S) -> (bool, S),
    E: Fn(&Expression) -> Option<Literal>,
    P: Fn(&Expression) -> Option<Expression>,
    V: Fn(&Representation, &Solution) -> Option<Literal>,
    R: Fn(Model, &Vec<&'static str>) -> Result<Model, String>,
    T: Fn(Model) -> Result<MinionModel, SolverError>,
    A: Fn(&str, &VarDomain, S) -> (Result<(), String>, S),
    C: Fn(&Constraint, S) -> (Result<(), String>, S),

    requires
        searched(tools, callback, minion, model, solutions, states),
    ensures
        forall|i: int|
            0 <= i < states.len() ==> grown_from(states.last().model, (#[trigger] states[i]).model),
        consistent(states.last()),
        status_of(states.last()) == if solutions.len() == 0 {
            SearchStatus::Complete(SearchComplete::NoSolutions)
        } else if solutions.last().go_on {
            SearchStatus::Complete(SearchComplete::HasSolutions)
        } else {
            SearchStatus::Incomplete(SearchIncomplete::UserTerminated)
        },
        states.last().hook_error is Some <==> solutions.len() > 0 && solutions.last().answer
            && !solutions.last().go_on,
    decreases solutions.len(),
{
    if solutions.len() == 0 {
        lemma_unchanged(model);
    } else {
        let n = solutions.len() - 1;
        let earlier = solutions.drop_last();
        let passed = states.drop_last();
        assert forall|i: int| 0 <= i < earlier.len() implies taken(
            tools,
            callback,
            minion,
            passed[i],
            #[trigger] earlier[i],
            passed[i + 1],
        ) by {
            assert(earlier[i] == solutions[i]);
        }
        assert forall|i: int| 0 <= i < earlier.len() - 1 implies (#[trigger] earlier[i]).go_on by {
            assert(earlier[i] == solutions[i]);
        }
        law_whole_search(tools, callback, minion, model, earlier, passed);
        assert(passed.last() == states[n]);
        if n > 0 {
            assert(earlier.last() == solutions[n - 1]);
        }
        assert(solutions[n] == solutions.last());
        law_taking_a_solution(
            tools,
            minion,
            solutions[n].values,
            states[n],
            solutions[n].answer,
            solutions[n].asked,
            states[n + 1],
            solutions[n].go_on,
            solutions[n].after,
        );
        assert forall|i: int| 0 <= i < states.len() implies grown_from(
            states.last().model,
            (#[trigger] states[i]).model,
        ) by {
            if i <= n {
                assert(passed[i] == states[i]);
                lemma_grown_further(states.last().model, states[n].model, states[i].model);
            } else {
                lemma_unchanged(states.last().model);
            }
        }
    }
}

/// How a search ended tells whether there was a solution, if the search was not told to stop.
pub proof fn law_status_tells_of_solutions(search: SearchView)
    requires
        consistent(search),
    ensures
        status_of(search) == SearchStatus::Complete(SearchComplete::NoSolutions)
            <==> !search.any_solutions,
        status_of(search) == SearchStatus::Complete(SearchComplete::HasSolutions)
            <==> search.any_solutions && !search.user_terminated,
        status_of(search) == SearchStatus::Incomplete(SearchIncomplete::UserTerminated)
            <==> search.user_terminated,
{
}

/// Every name that a solution of Minion has a value for has one in the solution that is read, and
/// no other name has one.
pub proof fn law_read_solution_has_the_names(raw: Seq<(Seq<char>, Constant)>, name: NameView)
    requires
        readable(raw),
    ensures
        translated(raw).dom().contains(name) <==> exists|i: int|
            0 <= i < raw.len() && named((#[trigger] raw[i]).0) == Some(name),
    decreases raw.len(),
{
    if raw.len() > 0 {
        let rest = raw.drop_last();
        assert forall|i: int| 0 <= i < rest.len() implies named((#[trigger] rest[i]).0) is Some
            && !(rest[i].1 is Other) by {
            assert(rest[i] == raw[i]);
        }
        law_read_solution_has_the_names(rest, name);
        let last = raw.len() - 1;
        assert(named(raw[last].0) is Some);
        if translated(rest).dom().contains(name) {
            let i = choose|i: int|
                0 <= i < rest.len() && named((#[trigger] rest[i]).0) == Some(name);
            assert(named(raw[i].0) == Some(name));
        }
        if exists|i: int| 0 <= i < raw.len() && named((#[trigger] raw[i]).0) == Some(name) {
            let i = choose|i: int|
                0 <= i < raw.len() && named((#[trigger] raw[i]).0) == Some(name);
            if i < last {
                assert(named(rest[i].0) == Some(name));
            }
        }
    }
}

} // verus!
