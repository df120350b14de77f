//! What the adaptor does with models, with solutions, and with the end of a search.
use crate::adaptor::{
    after_load, after_search, begun, dominance_relation, may_answer, may_translate, nodes_of,
    raw_views, readable, status_of, translated, unloaded, MinionView, SearchComplete,
    SearchIncomplete, SearchStatus, SearchView, Tools,
};
use crate::error::{MinionError, SolverError};
use crate::expression::{Expression, ExpressionView, Head, Literal, LiteralView};
use crate::meaning::{meaning, Interpretation};
use crate::minion_ast::{Constant, Constraint, MinionModel, MinionModelView, VarDomain};
use crate::model::{Model, ModelView, Representation};
use crate::name::{named, NameView};
use crate::number_laws::{has_digit_codes, law_what_a_number_is, place_value};
use crate::solution::Solution;
use vstd::prelude::*;

verus! {

/// What a load leaves, for every model: where the model marks an expression as its dominance
/// relation, that very expression is the relation; where its relation has no mark, that one is;
/// where it has none, there is none. The model itself is what dominance constraints are stated
/// over, if there is a relation. The model for Minion is the new one, or the one before if there
/// is no new one.
pub proof fn law_what_a_load_leaves(
    minion: MinionView,
    model: ModelView,
    translated_model: Result<MinionModel, SolverError>,
    relation: ExpressionView,
)
    ensures
        ({
            let after = after_load(minion, model, translated_model);
            &&& model.dominance == Some(
                ExpressionView { head: Head::DominanceRelation, operands: seq![relation] },
            ) ==> after.dominance_expression == Some(relation)
            &&& model.dominance == Some(relation) && !(relation.head is DominanceRelation)
                ==> after.dominance_expression == Some(relation)
            &&& model.dominance is None ==> after.dominance_expression is None
                && after.dominance_model_template is None
            &&& model.dominance is Some ==> after.dominance_model_template == Some(model)
            &&& match translated_model {
                Ok(minion_model) => after.model == Some(minion_model@),
                Err(_) => after.model == minion.model,
            }
        }),
{
}

/// The relation that a load leaves means what the marked expression means, under every
/// interpretation.
pub proof fn law_a_loaded_relation_keeps_its_meaning(
    minion: MinionView,
    model: ModelView,
    translated_model: Result<MinionModel, SolverError>,
    given: Interpretation,
)
    requires
        model.dominance matches Some(marked) && marked.head is DominanceRelation
            && marked.operands.len() == 1,
    ensures
        ({
            let relation = after_load(minion, model, translated_model).dominance_expression;
            relation is Some && meaning(relation.unwrap(), given) == meaning(
                model.dominance.unwrap().operands[0],
                given,
            )
        }),
{
}

/// Two models of the same dominance relation leave the same one, and models of different marked
/// relations leave different ones.
pub proof fn law_loads_tell_relations_apart(one: ExpressionView, other: ExpressionView)
    ensures
        dominance_relation(
            Some(ExpressionView { head: Head::DominanceRelation, operands: seq![one] }),
        ) == dominance_relation(
            Some(ExpressionView { head: Head::DominanceRelation, operands: seq![other] }),
        ) <==> one == other,
{
    let a = ExpressionView { head: Head::DominanceRelation, operands: seq![one] };
    let b = ExpressionView { head: Head::DominanceRelation, operands: seq![other] };
    assert(a.operands[0] == one && b.operands[0] == other);
}

/// A model is brought into the form that Minion takes by one call, with a model that says the
/// same.
pub proof fn law_what_the_translator_is_handed<T>(
    model_to_minion: T,
    model: ModelView,
    reply: Result<MinionModel, SolverError>,
) where T: Fn(Model) -> Result<MinionModel, SolverError>
    requires
        may_translate(model_to_minion, model, reply),
    ensures
        exists|given: Model|
            given@ == model && #[trigger] call_ensures(model_to_minion, (given,), reply),
{
}

/// A new adaptor has no model and no dominance relation.
pub proof fn law_a_new_adaptor_has_nothing()
    ensures
        unloaded().model is None,
        unloaded().dominance_expression is None,
        unloaded().dominance_model_template is None,
{
}

/// What Minion says of a solution: each text with its value, in order.
pub proof fn law_what_a_raw_solution_says(raw: Seq<(String, Constant)>)
    ensures
        raw_views(raw).len() == raw.len(),
        forall|i: int|
            0 <= i < raw.len() ==> #[trigger] raw_views(raw)[i] == (raw[i].0@, raw[i].1),
{
}

/// A solution of Minion can be read just where every text stands for a name and every value is an
/// integer or a truth value.
pub proof fn law_which_solutions_can_be_read(raw: Seq<(Seq<char>, Constant)>)
    ensures
        readable(raw) <==> forall|i: int|
            0 <= i < raw.len() ==> named((#[trigger] raw[i]).0) is Some && (raw[i].1 is Integer
                || raw[i].1 is Bool),
{
}

/// The very value that Minion gives to a name is the one that is read: an integer as that integer,
/// for every integer, and a truth value as that truth value. Of several entries for a name, the
/// last counts.
pub proof fn law_values_are_read_as_they_are(
    raw: Seq<(Seq<char>, Constant)>,
    i: int,
    name: NameView,
)
    requires
        readable(raw),
        0 <= i < raw.len(),
        named(raw[i].0) == Some(name),
        forall|k: int| i < k < raw.len() ==> named((#[trigger] raw[k]).0) != Some(name),
    ensures
        translated(raw).dom().contains(name),
        match raw[i].1 {
            Constant::Integer(n) => translated(raw)[name] == LiteralView::Int(n),
            Constant::Bool(b) => translated(raw)[name] == LiteralView::Bool(b),
            Constant::Other(_) => false,
        },
    decreases raw.len(),
{
    let rest = raw.drop_last();
    let last = raw.len() - 1;
    assert(raw[last] == raw.last());
    assert(named(raw[last].0) is Some);
    if i < last {
        assert forall|k: int| 0 <= k < rest.len() implies named((#[trigger] rest[k]).0) is Some
            && !(rest[k].1 is Other) by {
            assert(rest[k] == raw[k]);
        }
        assert(rest[i] == raw[i]);
        assert forall|k: int| i < k < rest.len() implies named((#[trigger] rest[k]).0) != Some(
            name,
        ) by {
            assert(rest[k] == raw[k]);
        }
        law_values_are_read_as_they_are(rest, i, name);
        assert(named(raw[last].0) != Some(name));
    }
}

/// The user is asked by one call, with a solution of just the values read, and the answer is what
/// came back.
pub proof fn law_what_the_user_is_shown<U, S>(
    callback: U,
    values: Map<NameView, LiteralView>,
    before: S,
    answer: bool,
    after: S,
) where U: Fn(&Solution, S) -> (bool, S)
    requires
        may_answer(callback, values, before, answer, after),
    ensures
        exists|solution: &Solution|
            solution@ == values && #[trigger] call_ensures(
                callback,
                (solution, before),
                (answer, after),
            ),
{
}

/// A search begins on the model, without a solution, an order to stop, or an error.
pub proof fn law_how_a_search_begins(model: MinionModelView)
    ensures
        begun(model) == (SearchView {
            model,
            any_solutions: false,
            user_terminated: false,
            hook_error: None,
        }),
{
}

/// A user who does not want to go on stops the search: nothing is asked of the search, and nothing
/// but that there was a solution and an order to stop is new.
pub proof fn law_a_no_stops_the_search<E, P, V, R, T, A, C, S>(
    tools: &Tools<E, P, V, R, T, A, C>,
    minion: MinionView,
    values: Map<NameView, LiteralView>,
    before: SearchView,
    from: S,
    after: SearchView,
    go_on: bool,
    to: S,
) where
    E: Fn(&Expression) -> Option<Literal>,
    P: Fn(&Expression) -> Option<Expression>,
    V: Fn(&Representation, &Solution) -> Option<Literal>,
    R: Fn(Model, &Vec<&'static str>) -> Result<Model, String>,
    T: Fn(Model) -> Result<MinionModel, SolverError>,
    A: Fn(&str, &VarDomain, S) -> (Result<(), String>, S),
    C: Fn(&Constraint, S) -> (Result<(), String>, S),

    requires
        tools.may_take(minion, values, before, false, from, after, go_on, to),
    ensures
        !go_on,
        to == from,
        after == (SearchView {
            model: before.model,
            any_solutions: true,
            user_terminated: true,
            hook_error: before.hook_error,
        }),
{
}

/// Where there is no relation, or no model to state it over, a user who wants to go on does, and
/// nothing is new but that there was a solution.
pub proof fn law_a_yes_without_dominance_goes_on<E, P, V, R, T, A, C, S>(
    tools: &Tools<E, P, V, R, T, A, C>,
    minion: MinionView,
    values: Map<NameView, LiteralView>,
    before: SearchView,
    from: S,
    after: SearchView,
    go_on: bool,
    to: S,
) where
    E: Fn(&Expression) -> Option<Literal>,
    P: Fn(&Expression) -> Option<Expression>,
    V: Fn(&Representation, &Solution) -> Option<Literal>,
    R: Fn(Model, &Vec<&'static str>) -> Result<Model, String>,
    T: Fn(Model) -> Result<MinionModel, SolverError>,
    A: Fn(&str, &VarDomain, S) -> (Result<(), String>, S),
    C: Fn(&Constraint, S) -> (Result<(), String>, S),

    requires
        tools.may_take(minion, values, before, true, from, after, go_on, to),
        minion.dominance_expression is None || minion.dominance_model_template is None,
    ensures
        go_on,
        to == from,
        after == (SearchView {
            model: before.model,
            any_solutions: true,
            user_terminated: before.user_terminated,
            hook_error: before.hook_error,
        }),
{
}

/// How a search that did not fail ended: stopped if it was told to stop, else complete, with or
/// without solutions as there were.
pub proof fn law_how_a_search_ended(search: SearchView)
    ensures
        search.user_terminated ==> status_of(search) == SearchStatus::Incomplete(
            SearchIncomplete::UserTerminated,
        ),
        !search.user_terminated && search.any_solutions ==> status_of(search)
            == SearchStatus::Complete(SearchComplete::HasSolutions),
        !search.user_terminated && !search.any_solutions ==> status_of(search)
            == SearchStatus::Complete(SearchComplete::NoSolutions),
{
}

/// What a search leaves in the adaptor: the model as it has grown, if the run did not fail, and
/// all else as it was.
pub proof fn law_what_a_search_leaves(
    minion: MinionView,
    search: SearchView,
    run: Result<(), MinionError>,
)
    ensures
        run is Ok ==> after_search(minion, search, run).model == Some(search.model),
        run is Err ==> after_search(minion, search, run).model == minion.model,
        after_search(minion, search, run).dominance_expression == minion.dominance_expression,
        after_search(minion, search, run).dominance_model_template
            == minion.dominance_model_template,
{
}

/// The number of nodes is what the text of Minion stands for in base ten, and is not known without
/// a text.
pub proof fn law_nodes_are_read_as_they_are(text: Option<String>, nodes: u64)
    ensures
        text is None ==> nodes_of(text) is None,
        text matches Some(given) ==> (given@.len() > 0 && has_digit_codes(given@) && place_value(
            given@,
        ) == nodes ==> nodes_of(text) == Some(nodes)),
        text matches Some(given) ==> (given@.len() > 1 && given@[0] == '+' && has_digit_codes(
            given@.drop_first(),
        ) && place_value(given@.drop_first()) == nodes ==> nodes_of(text) == Some(nodes)),
{
    if let Some(given) = text {
        law_what_a_number_is(given@, nodes);
        if given@.len() > 0 && has_digit_codes(given@) {
            assert(48 <= given@[0] as int <= 57);
        }
    }
}

} // verus!
