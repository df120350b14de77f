//! The adaptor for Minion.
use crate::dominance::{blocker, dominance_blocker, dominated};
use crate::error::{report, reported, MinionError, SolverError, SolverErrorView};
use crate::expression::{negated, optional_view, Expression, ExpressionView, Literal, LiteralView};
use crate::injection::{can_inject, inject, may_inject, outcome_view, BlockerError};
use crate::minion_ast::{Constant, Constraint, MinionModel, MinionModelView, VarDomain};
use crate::model::{clone_rule_sets, Model, ModelView, Representation};
use crate::name::{named, parse_name, NameView};
use crate::represented::{
    add_represented_decision_values, can_enrich, decision_representations, enriched,
};
use crate::simplify::{constants_of, evaluates, reduces, reductions_of, settles};
use crate::solution::Solution;
use crate::text::{parse_number, written_number};
use vstd::prelude::*;

verus! {

/// The families of solvers.
#[derive(Debug, Clone, Copy, PartialEq, Eq, Structural)]
pub enum SolverFamily {
    Minion,
}

/// What a search is known to have come to when it ran to its end.
#[derive(Debug, Clone, Copy, PartialEq, Eq, Structural)]
pub enum SearchComplete {
    HasSolutions,
    NoSolutions,
}

/// Why a search did not run to its end.
#[derive(Debug, Clone, Copy, PartialEq, Eq, Structural)]
pub enum SearchIncomplete {
    UserTerminated,
}

/// How a search ended.
#[derive(Debug, Clone, Copy, PartialEq, Eq, Structural)]
pub enum SearchStatus {
    Complete(SearchComplete),
    Incomplete(SearchIncomplete),
}

/// What a search has cost.
#[derive(Debug, Clone, Copy, PartialEq, Eq, Structural)]
pub struct SolverStats {
    /// The number of nodes of the search tree that were visited, if it is known.
    pub nodes: Option<u64>,
}

/// The result of a search that did not fail.
#[derive(Debug, Clone, Copy, PartialEq, Eq, Structural)]
pub struct SolveSuccess {
    pub stats: SolverStats,
    pub status: SearchStatus,
}

/// What the adaptor needs of the modelling layer and of a running search.
pub struct Tools<E, P, V, R, T, A, C> {
    /// The constant that an expression is, if it is one.
    pub eval_constant: E,
    /// What an expression reduces to by partial evaluation, if it does.
    pub run_partial_evaluator: P,
    /// The value that a representation stands for, given the values of other names.
    pub value_up: V,
    /// Rewrites a model by some rule sets.
    pub rewrite_model: R,
    /// Brings a rewritten model into the form that Minion takes.
    pub model_to_minion: T,
    /// Adds a variable to the running search. What it works on is handed to it, and comes back
    /// with the reply.
    pub add_variable: A,
    /// Adds a constraint to the running search. What it works on is handed to it, and comes back
    /// with the reply.
    pub add_constraint: C,
}

impl<E, P, V, R, T, A, C> Tools<E, P, V, R, T, A, C> where
    E: Fn(&Expression) -> Option<Literal>,
    P: Fn(&Expression) -> Option<Expression>,
    V: Fn(&Representation, &Solution) -> Option<Literal>,
    R: Fn(Model, &Vec<&'static str>) -> Result<Model, String>,
    T: Fn(Model) -> Result<MinionModel, SolverError>,
 {
    /// The expression that keeps out what a solution dominates can be simplified to an end: the
    /// evaluators take expressions, what they return is a matter of what the expression says
    /// alone, and simplification with them settles.
    pub open spec fn can_simplify(
        &self,
        dominance: ExpressionView,
        solution: Map<NameView, LiteralView>,
    ) -> bool {
        &&& evaluates(self.eval_constant)
        &&& reduces(self.run_partial_evaluator)
        &&& settles(
            negated(dominated(dominance, solution)),
            constants_of(self.eval_constant),
            reductions_of(self.run_partial_evaluator),
        )
    }

    /// A model can be prepared for Minion: it can be rewritten by its rule sets, and whatever it
    /// is rewritten to can be brought into the form that Minion takes.
    pub open spec fn can_prepare(&self, model: ModelView) -> bool {
        &&& forall|m: Model, rule_sets: &Vec<&'static str>|
            m@ == model && rule_sets@ == model.rule_sets ==> #[trigger] call_requires(
                self.rewrite_model,
                (m, rule_sets),
            )
        &&& forall|rewritten: Model| #[trigger]
            self.may_rewrite(model, Ok(rewritten)) ==> call_requires(
                self.model_to_minion,
                (rewritten,),
            )
    }

    /// The dominance constraint of a solution can be made and added to a search on `before`:
    /// each of the tools takes what this hands to it. Nothing else is said of what they take.
    pub open spec fn can_block<S>(
        &self,
        dominance: ExpressionView,
        template: ModelView,
        solution: Map<NameView, LiteralView>,
        before: MinionModelView,
        from: S,
    ) -> bool where
        A: Fn(&str, &VarDomain, S) -> (Result<(), String>, S),
        C: Fn(&Constraint, S) -> (Result<(), String>, S),
     {
        &&& self.can_simplify(dominance, solution)
        &&& self.can_prepare(blocker_model(template, self.blocker(dominance, solution)))
        &&& forall|prepared: Result<MinionModel, BlockerError>| #[trigger]
            self.may_prepare(
                blocker_model(template, self.blocker(dominance, solution)),
                prepared,
            ) ==> can_inject(self.add_variable, self.add_constraint, before, prepared, from)
    }

    /// What keeps out the solutions that a solution dominates.
    pub open spec fn blocker(
        &self,
        dominance: ExpressionView,
        solution: Map<NameView, LiteralView>,
    ) -> ExpressionView {
        blocker(
            dominance,
            solution,
            constants_of(self.eval_constant),
            reductions_of(self.run_partial_evaluator),
        )
    }

    /// A model may be rewritten by its rule sets so.
    pub open spec fn may_rewrite(
        &self,
        model: ModelView,
        rewritten: Result<Model, String>,
    ) -> bool {
        exists|m: Model, rule_sets: &Vec<&'static str>|
            m@ == model && rule_sets@ == model.rule_sets && #[trigger] call_ensures(
                self.rewrite_model,
                (m, rule_sets),
                rewritten,
            )
    }

    /// A model may be prepared for Minion so: it is rewritten, and what it is rewritten to is
    /// brought into the form that Minion takes.
    pub open spec fn may_prepare(
        &self,
        model: ModelView,
        prepared: Result<MinionModel, BlockerError>,
    ) -> bool {
        exists|rewritten: Result<Model, String>|
            {
                &&& #[trigger] self.may_rewrite(model, rewritten)
                &&& match (rewritten, prepared) {
                    (Ok(rewritten), Ok(minion_model)) => may_translate(
                        self.model_to_minion,
                        rewritten@,
                        Ok(minion_model),
                    ),
                    (Ok(rewritten), Err(BlockerError::Translation(error))) => may_translate(
                        self.model_to_minion,
                        rewritten@,
                        Err(error),
                    ),
                    (Err(reason), Err(BlockerError::Rewriting(given))) => given == reason,
                    _ => false,
                }
            }
    }

    /// Prepares a model for Minion.
    fn prepare(&self, model: Model) -> (prepared: Result<MinionModel, BlockerError>)
        requires
            self.can_prepare(model@),
        ensures
            self.may_prepare(model@, prepared),
    {
        let ghost given = model@;
        let rule_sets = clone_rule_sets(&model.rule_sets);
        let rewritten = (self.rewrite_model)(model, &rule_sets);
        assert(self.may_rewrite(given, rewritten));
        match rewritten {
            Ok(rewritten) => {
                let ghost simpler = rewritten@;
                let translated = (self.model_to_minion)(rewritten);
                assert(may_translate(self.model_to_minion, simpler, translated));
                match translated {
                    Ok(minion_model) => Ok(minion_model),
                    Err(error) => Err(BlockerError::Translation(error)),
                }
            },
            Err(reason) => Err(BlockerError::Rewriting(reason)),
        }
    }

    /// The dominance constraint of a solution may be added to the search on `before` so, with
    /// requests that are made on `from` first and leave `to` in the end.
    pub open spec fn may_block<S>(
        &self,
        dominance: ExpressionView,
        template: ModelView,
        solution: Map<NameView, LiteralView>,
        before: MinionModelView,
        from: S,
        after: MinionModelView,
        outcome: Result<(), SolverErrorView>,
        to: S,
    ) -> bool where
        A: Fn(&str, &VarDomain, S) -> (Result<(), String>, S),
        C: Fn(&Constraint, S) -> (Result<(), String>, S),
     {
        exists|prepared: Result<MinionModel, BlockerError>|
            {
                &&& #[trigger] self.may_prepare(
                    blocker_model(template, self.blocker(dominance, solution)),
                    prepared,
                )
                &&& may_inject(
                    self.add_variable,
                    self.add_constraint,
                    before,
                    prepared,
                    from,
                    after,
                    outcome,
                    to,
                )
            }
    }
}

/// A model with one constraint only, over the declarations of another.
pub open spec fn blocker_model(template: ModelView, constraint: ExpressionView) -> ModelView {
    ModelView {
        constraints: seq![constraint],
        clauses: Seq::empty(),
        dominance: None,
        ..template
    }
}

/// What a model says that may be missing.
pub open spec fn optional_model(model: Option<Model>) -> Option<ModelView> {
    match model {
        Some(model) => Some(model@),
        None => None,
    }
}

/// What a model for Minion says that may be missing.
pub open spec fn optional_minion_model(model: Option<MinionModel>) -> Option<MinionModelView> {
    match model {
        Some(model) => Some(model@),
        None => None,
    }
}

/// An adaptor for the solver Minion.
pub struct Minion {
    model: Option<MinionModel>,
    dominance_expression: Option<Expression>,
    dominance_model_template: Option<Model>,
}

/// What a [`Minion`] holds: the model, the dominance relation, and the model that dominance
/// constraints are stated over.
pub struct MinionView {
    pub model: Option<MinionModelView>,
    pub dominance_expression: Option<ExpressionView>,
    pub dominance_model_template: Option<ModelView>,
}

/// The dominance relation of a model, without the mark that it is one.
pub open spec fn dominance_relation(dominance: Option<ExpressionView>) -> Option<ExpressionView> {
    match dominance {
        Some(expression) => if expression.head is DominanceRelation && expression.operands.len()
            == 1 {
            Some(expression.operands[0])
        } else {
            Some(expression)
        },
        None => None,
    }
}

/// `model_to_minion` may bring a model into the form that Minion takes so.
pub open spec fn may_translate<T: Fn(Model) -> Result<MinionModel, SolverError>>(
    model_to_minion: T,
    model: ModelView,
    translated: Result<MinionModel, SolverError>,
) -> bool {
    exists|m: Model| m@ == model && #[trigger] call_ensures(model_to_minion, (m,), translated)
}

/// An adaptor without a model.
pub open spec fn unloaded() -> MinionView {
    MinionView { model: None, dominance_expression: None, dominance_model_template: None }
}

/// An adaptor after a model was loaded that was brought into the form that Minion takes so. What
/// is known of dominance is that of the new model in any case; the model for Minion is the one
/// before, if the new one has no such form.
pub open spec fn after_load(
    minion: MinionView,
    model: ModelView,
    translated: Result<MinionModel, SolverError>,
) -> MinionView {
    MinionView {
        model: match translated {
            Ok(minion_model) => Some(minion_model@),
            Err(_) => minion.model,
        },
        dominance_expression: dominance_relation(model.dominance),
        dominance_model_template: match model.dominance {
            Some(_) => Some(model),
            None => None,
        },
    }
}

impl Minion {
    pub closed spec fn view(&self) -> MinionView {
        MinionView {
            model: optional_minion_model(self.model),
            dominance_expression: optional_view(self.dominance_expression),
            dominance_model_template: optional_model(self.dominance_model_template),
        }
    }

    /// An adaptor without a model.
    pub fn new() -> (minion: Minion)
        ensures
            minion@ == unloaded(),
    {
        Minion { model: None, dominance_expression: None, dominance_model_template: None }
    }

    /// Loads a model. What is known of dominance is that of the new model even where the model
    /// cannot be brought into the form that Minion takes; the model for Minion is then the one
    /// before.
    pub fn load_model<T>(&mut self, model: Model, model_to_minion: &T) -> (result: Result<
        (),
        SolverError,
    >) where T: Fn(Model) -> Result<MinionModel, SolverError>
        requires
            call_requires(*model_to_minion, (model,)),
        ensures
            exists|translated: Result<MinionModel, SolverError>|
                {
                    &&& #[trigger] may_translate(*model_to_minion, model@, translated)
                    &&& final(self)@ == after_load(old(self)@, model@, translated)
                    &&& outcome_view(result) == match translated {
                        Ok(_) => Ok::<(), SolverErrorView>(()),
                        Err(error) => Err(error@),
                    }
                },
    {
        self.dominance_expression = match &model.dominance {
            Some(Expression::DominanceRelation(inner)) => Some((**inner).clone()),
            Some(expression) => Some(expression.clone()),
            None => None,
        };
        self.dominance_model_template = match &self.dominance_expression {
            Some(_) => Some(model.clone()),
            None => None,
        };
        let ghost given = model@;
        let translated = model_to_minion(model);
        assert(may_translate(*model_to_minion, given, translated));
        match translated {
            Ok(minion_model) => {
                self.model = Some(minion_model);
                Ok(())
            },
            Err(error) => Err(error),
        }
    }

    /// Adds the constraint that keeps out what `solution` dominates to the search on
    /// `minion_model`; nothing, if there is no dominance relation or no model to state the
    /// constraint over. `outside` is what the search works on: it goes through every request that
    /// is made of the search, and is given back.
    pub fn add_dominance_constraints_for_solution<E, P, V, R, T, A, C, S>(
        dominance_expression: Option<&Expression>,
        dominance_model_template: Option<&Model>,
        solution: &Solution,
        minion_model: &mut MinionModel,
        tools: &Tools<E, P, V, R, T, A, C>,
        outside: S,
    ) -> (result: (Result<(), SolverError>, S)) where
        E: Fn(&Expression) -> Option<Literal>,
        P: Fn(&Expression) -> Option<Expression>,
        V: Fn(&Representation, &Solution) -> Option<Literal>,
        R: Fn(Model, &Vec<&'static str>) -> Result<Model, String>,
        T: Fn(Model) -> Result<MinionModel, SolverError>,
        A: Fn(&str, &VarDomain, S) -> (Result<(), String>, S),
        C: Fn(&Constraint, S) -> (Result<(), String>, S),

        requires
            solution.wf(),
            match (dominance_expression, dominance_model_template) {
                (Some(dominance), Some(template)) => tools.can_block(
                    dominance@,
                    template@,
                    solution@,
                    old(minion_model)@,
                    outside,
                ),
                _ => true,
            },
        ensures
            match (dominance_expression, dominance_model_template) {
                (Some(dominance), Some(template)) => tools.may_block(
                    dominance@,
                    template@,
                    solution@,
                    old(minion_model)@,
                    outside,
                    final(minion_model)@,
                    outcome_view(result.0),
                    result.1,
                ),
                _ => final(minion_model)@ == old(minion_model)@ && result.0 is Ok && result.1
                    == outside,
            },
    {
        let dominance = match dominance_expression {
            Some(dominance) => dominance,
            None => return (Ok(()), outside),
        };
        let template = match dominance_model_template {
            Some(template) => template,
            None => return (Ok(()), outside),
        };
        let rewritten_dominance = dominance_blocker(
            dominance,
            solution,
            &tools.eval_constant,
            &tools.run_partial_evaluator,
        );
        let mut dominance_model = template.clone();
        dominance_model.constraints = Vec::new();
        dominance_model.clauses = Vec::new();
        dominance_model.dominance = None;
        assert(dominance_model@.constraints =~= Seq::empty());
        assert(dominance_model@.clauses =~= Seq::empty());
        dominance_model.add_constraint(rewritten_dominance);
        let ghost expected = blocker_model(template@, tools.blocker(dominance@, solution@));
        assert(dominance_model@.constraints =~= expected.constraints);
        assert(dominance_model@ == expected);
        let prepared = tools.prepare(dominance_model);
        inject(minion_model, prepared, &tools.add_variable, &tools.add_constraint, outside)
    }
}

impl Default for Minion {
    fn default() -> (minion: Minion)
        ensures
            minion@ == unloaded(),
    {
        Minion::new()
    }
}

/// What a solution of Minion says: the texts that it knows the variables by, and their values.
pub open spec fn raw_views(raw: Seq<(String, Constant)>) -> Seq<(Seq<char>, Constant)> {
    Seq::new(raw.len(), |i: int| (raw[i].0@, raw[i].1))
}

/// Every text stands for a name, and every value is one that a solution can hold.
pub open spec fn readable(raw: Seq<(Seq<char>, Constant)>) -> bool {
    forall|i: int|
        0 <= i < raw.len() ==> named((#[trigger] raw[i]).0) is Some && !(raw[i].1 is Other)
}

/// The literal for a constant of Minion.
pub open spec fn literal_of(value: Constant) -> LiteralView {
    match value {
        Constant::Bool(b) => LiteralView::Bool(b),
        Constant::Integer(n) => LiteralView::Int(n),
        Constant::Other(_) => arbitrary(),
    }
}

/// The values that a solution of Minion gives to names. Of two texts that stand for one name, the
/// later one counts.
pub open spec fn translated(raw: Seq<(Seq<char>, Constant)>) -> Map<NameView, LiteralView>
    decreases raw.len(),
{
    if raw.len() == 0 {
        Map::empty()
    } else {
        translated(raw.drop_last()).insert(
            named(raw.last().0).unwrap(),
            literal_of(raw.last().1),
        )
    }
}

/// Reads a solution of Minion.
pub fn translate_solution(raw: &Vec<(String, Constant)>) -> (solution: Solution)
    requires
        readable(raw_views(raw@)),
    ensures
        solution.wf(),
        solution@ == translated(raw_views(raw@)),
{
    let ghost views = raw_views(raw@);
    let mut solution = Solution::new();
    assert(views.take(0) =~= Seq::empty());
    for i in 0..raw.len()
        invariant
            views == raw_views(raw@),
            readable(views),
            solution.wf(),
            solution@ == translated(views.take(i as int)),
    {
        assert(views[i as int] == (raw@[i as int].0@, raw@[i as int].1));
        assert(views.take(i + 1).drop_last() =~= views.take(i as int));
        let literal = match raw[i].1 {
            Constant::Bool(b) => Literal::Bool(b),
            Constant::Integer(n) => Literal::Int(n),
            Constant::Other(_) => {
                assert(false);
                Literal::Int(0)
            },
        };
        solution.insert(parse_name(raw[i].0.as_str()), literal);
    }
    assert(views.take(views.len() as int) =~= views);
    solution
}

/// What is known of a search that is under way.
pub struct Search {
    model: MinionModel,
    any_solutions: bool,
    user_terminated: bool,
    hook_error: Option<SolverError>,
}

/// What a [`Search`] holds: the model as it has grown, whether there was a solution, whether the
/// search was told to stop, and why a dominance constraint could not be added.
pub struct SearchView {
    pub model: MinionModelView,
    pub any_solutions: bool,
    pub user_terminated: bool,
    pub hook_error: Option<SolverErrorView>,
}

/// A search on a model that has not come to a solution yet.
pub open spec fn begun(model: MinionModelView) -> SearchView {
    SearchView { model, any_solutions: false, user_terminated: false, hook_error: None }
}

/// An adaptor after a search that Minion has run so. What is known of dominance stays; the model
/// is the one that the search has grown, unless the run failed.
pub open spec fn after_search(
    minion: MinionView,
    search: SearchView,
    run: Result<(), MinionError>,
) -> MinionView {
    MinionView {
        model: match run {
            Ok(()) => Some(search.model),
            Err(_) => minion.model,
        },
        ..minion
    }
}

/// What an error says that may be missing.
pub open spec fn optional_error(error: Option<SolverError>) -> Option<SolverErrorView> {
    match error {
        Some(error) => Some(error@),
        None => None,
    }
}

/// `callback` may answer so when it is shown these values, once. `before` and `after` are what it
/// works on: that is handed to it, and comes back with the answer.
pub open spec fn may_answer<U: Fn(&Solution, S) -> (bool, S), S>(
    callback: U,
    values: Map<NameView, LiteralView>,
    before: S,
    answer: bool,
    after: S,
) -> bool {
    exists|solution: &Solution|
        solution.wf() && solution@ == values && #[trigger] call_ensures(
            callback,
            (solution, before),
            (answer, after),
        )
}

/// The values of a solution may be completed so for stating dominance: by the values of the
/// names that the solver knows by their representation only, if there is a model that says so.
pub open spec fn may_complete<V: Fn(&Representation, &Solution) -> Option<Literal>>(
    value_up: V,
    template: Option<ModelView>,
    values: Map<NameView, LiteralView>,
    completed: Map<NameView, LiteralView>,
) -> bool {
    match template {
        Some(template) => exists|replies: Seq<Option<LiteralView>>| #[trigger]
            enriched(
                value_up,
                values,
                decision_representations(template.symbols, template.symbols.len()),
                replies,
                completed,
            ),
        None => completed == values,
    }
}

/// A search after it was told to stop, or not.
pub open spec fn told(search: SearchView, go_on: bool) -> SearchView {
    SearchView { user_terminated: search.user_terminated || !go_on, ..search }
}

impl<E, P, V, R, T, A, C> Tools<E, P, V, R, T, A, C> where
    E: Fn(&Expression) -> Option<Literal>,
    P: Fn(&Expression) -> Option<Expression>,
    V: Fn(&Representation, &Solution) -> Option<Literal>,
    R: Fn(Model, &Vec<&'static str>) -> Result<Model, String>,
    T: Fn(Model) -> Result<MinionModel, SolverError>,
 {
    /// A solution of these values, with which the user wants to go on, can be taken in by a
    /// search on `before`: it can be completed, and whatever it is completed to, what it
    /// dominates can be kept out. Nothing is said of the tools where there is nothing to keep
    /// out.
    pub open spec fn can_take<S>(
        &self,
        minion: MinionView,
        values: Map<NameView, LiteralView>,
        before: MinionModelView,
        from: S,
    ) -> bool where
        A: Fn(&str, &VarDomain, S) -> (Result<(), String>, S),
        C: Fn(&Constraint, S) -> (Result<(), String>, S),
     {
        &&& match minion.dominance_model_template {
            Some(template) => can_enrich(
                self.value_up,
                values,
                decision_representations(template.symbols, template.symbols.len()),
            ),
            None => true,
        }
        &&& match (minion.dominance_expression, minion.dominance_model_template) {
            (Some(dominance), Some(template)) => forall|completed: Map<NameView, LiteralView>|
             #[trigger]
                may_complete(
                    self.value_up,
                    minion.dominance_model_template,
                    values,
                    completed,
                ) ==> self.can_block(dominance, template, completed, before, from),
            _ => true,
        }
    }

    /// After a solution of these values, with which the user wants to go on, the model may be
    /// `after`, and this the outcome, with requests that are made on `from` first and leave `to`
    /// in the end.
    pub open spec fn may_go_on<S>(
        &self,
        minion: MinionView,
        values: Map<NameView, LiteralView>,
        before: MinionModelView,
        from: S,
        after: MinionModelView,
        outcome: Result<(), SolverErrorView>,
        to: S,
    ) -> bool where
        A: Fn(&str, &VarDomain, S) -> (Result<(), String>, S),
        C: Fn(&Constraint, S) -> (Result<(), String>, S),
     {
        exists|completed: Map<NameView, LiteralView>|
            {
                &&& #[trigger] may_complete(
                    self.value_up,
                    minion.dominance_model_template,
                    values,
                    completed,
                )
                &&& match (minion.dominance_expression, minion.dominance_model_template) {
                    (Some(dominance), Some(template)) => self.may_block(
                        dominance,
                        template,
                        completed,
                        before,
                        from,
                        after,
                        outcome,
                        to,
                    ),
                    _ => after == before && outcome == Ok::<(), SolverErrorView>(()) && to == from,
                }
            }
    }

    /// A search may be in state `after`, and told to go on or not, once the user gave this
    /// answer to a solution of these values, with requests that are made on `from` first and
    /// leave `to` in the end.
    pub open spec fn may_take<S>(
        &self,
        minion: MinionView,
        values: Map<NameView, LiteralView>,
        before: SearchView,
        answer: bool,
        from: S,
        after: SearchView,
        go_on: bool,
        to: S,
    ) -> bool where
        A: Fn(&str, &VarDomain, S) -> (Result<(), String>, S),
        C: Fn(&Constraint, S) -> (Result<(), String>, S),
     {
        let seen = SearchView { any_solutions: true, ..before };
        if !answer {
            !go_on && after == told(seen, false) && to == from
        } else {
            exists|grown: MinionModelView, outcome: Result<(), SolverErrorView>|
                {
                    &&& #[trigger] self.may_go_on(
                        minion,
                        values,
                        before.model,
                        from,
                        grown,
                        outcome,
                        to,
                    )
                    &&& match outcome {
                        Ok(()) => go_on && after == (SearchView { model: grown, ..seen }),
                        Err(error) => !go_on && after == told(
                            SearchView { model: grown, hook_error: Some(error), ..seen },
                            false,
                        ),
                    }
                }
        }
    }
}

impl Search {
    pub closed spec fn view(&self) -> SearchView {
        SearchView {
            model: self.model@,
            any_solutions: self.any_solutions,
            user_terminated: self.user_terminated,
            hook_error: optional_error(self.hook_error),
        }
    }

    /// The model as it has grown so far.
    pub fn model(&self) -> (model: &MinionModel)
        ensures
            model@ == self@.model,
    {
        &self.model
    }

    /// Why a dominance constraint could not be added, if one could not.
    pub fn failure(&self) -> (failure: Option<&SolverError>)
        ensures
            match failure {
                Some(error) => self@.hook_error == Some(error@),
                None => self@.hook_error is None,
            },
    {
        self.hook_error.as_ref()
    }

    /// Takes in a solution that Minion found, and says whether the search is to go on. The user
    /// is asked first, and once. If the user wants to go on, what the solution dominates is kept
    /// out from here on; the search is stopped where that fails. `outside` is what the user and
    /// the running search work on: it goes through the question and every request, one after the
    /// other, and is given back.
    pub fn take_solution<U, E, P, V, R, T, A, C, S>(
        &mut self,
        minion: &Minion,
        raw: &Vec<(String, Constant)>,
        callback: &U,
        tools: &Tools<E, P, V, R, T, A, C>,
        outside: S,
    ) -> (result: (bool, S)) where
        U: Fn(&Solution, S) -> (bool, S),
        E: Fn(&Expression) -> Option<Literal>,
        P: Fn(&Expression) -> Option<Expression>,
        V: Fn(&Representation, &Solution) -> Option<Literal>,
        R: Fn(Model, &Vec<&'static str>) -> Result<Model, String>,
        T: Fn(Model) -> Result<MinionModel, SolverError>,
        A: Fn(&str, &VarDomain, S) -> (Result<(), String>, S),
        C: Fn(&Constraint, S) -> (Result<(), String>, S),

        requires
            readable(raw_views(raw@)),
            forall|s: &Solution|
                s.wf() && s@ == translated(raw_views(raw@)) ==> call_requires(
                    *callback,
                    (s, outside),
                ),
            forall|asked: S| #[trigger]
                may_answer(
                    *callback,
                    translated(raw_views(raw@)),
                    outside,
                    true,
                    asked,
                ) ==> tools.can_take(
                    minion@,
                    translated(raw_views(raw@)),
                    old(self)@.model,
                    asked,
                ),
        ensures
            exists|answer: bool, asked: S|
                {
                    &&& #[trigger] may_answer(
                        *callback,
                        translated(raw_views(raw@)),
                        outside,
                        answer,
                        asked,
                    )
                    &&& tools.may_take(
                        minion@,
                        translated(raw_views(raw@)),
                        old(self)@,
                        answer,
                        asked,
                        final(self)@,
                        result.0,
                        result.1,
                    )
                },
    {
        let ghost values = translated(raw_views(raw@));
        let ghost before = self@;
        self.any_solutions = true;
        let solution = translate_solution(raw);
        let (answer, asked) = callback(&solution, outside);
        let ghost from = asked;
        assert(may_answer(*callback, values, outside, answer, from));
        if !answer {
            self.user_terminated = true;
            assert(tools.may_take(minion@, values, before, answer, from, self@, false, from));
            return (false, asked);
        }
        let mut dominance_solution = solution.clone();
        if let Some(template) = &minion.dominance_model_template {
            add_represented_decision_values(&mut dominance_solution, template, &tools.value_up);
        }
        let ghost completed = dominance_solution@;
        assert(may_complete(
            tools.value_up,
            minion@.dominance_model_template,
            values,
            completed,
        ));
        let (result, left) = Minion::add_dominance_constraints_for_solution(
            minion.dominance_expression.as_ref(),
            minion.dominance_model_template.as_ref(),
            &dominance_solution,
            &mut self.model,
            tools,
            asked,
        );
        let ghost grown = self.model@;
        assert(tools.may_go_on(
            minion@,
            values,
            before.model,
            from,
            grown,
            outcome_view(result),
            left,
        ));
        match result {
            Ok(()) => {
                assert(tools.may_take(minion@, values, before, answer, from, self@, true, left));
                (true, left)
            },
            Err(error) => {
                self.hook_error = Some(error);
                self.user_terminated = true;
                assert(tools.may_take(minion@, values, before, answer, from, self@, false, left));
                (false, left)
            },
        }
    }
}

/// How a search ended, if it did not fail.
pub open spec fn status_of(search: SearchView) -> SearchStatus {
    if search.user_terminated {
        SearchStatus::Incomplete(SearchIncomplete::UserTerminated)
    } else if search.any_solutions {
        SearchStatus::Complete(SearchComplete::HasSolutions)
    } else {
        SearchStatus::Complete(SearchComplete::NoSolutions)
    }
}

/// The number of nodes that a text tells of, if there is a text.
pub open spec fn nodes_of(text: Option<String>) -> Option<u64> {
    match text {
        Some(text) => written_number(text@),
        None => None,
    }
}

/// Reads what a search has cost from the text that Minion has on its nodes, if it has one.
pub fn get_solver_stats(nodes: &Option<String>) -> (stats: SolverStats)
    requires
        *nodes matches Some(text) ==> written_number(text@) is Some,
    ensures
        stats == (SolverStats { nodes: nodes_of(*nodes) }),
{
    match nodes {
        Some(text) => SolverStats { nodes: parse_number(text.as_str()) },
        None => SolverStats { nodes: None },
    }
}

impl Minion {
    /// Begins a search on the loaded model.
    pub fn start_search(&self) -> (search: Search)
        requires
            self@.model is Some,
        ensures
            search@ == begun(self@.model.unwrap()),
    {
        let model = match &self.model {
            Some(model) => model.clone(),
            None => {
                assert(false);
                MinionModel::new()
            },
        };
        Search { model, any_solutions: false, user_terminated: false, hook_error: None }
    }

    /// Ends a search that Minion has run. If the run failed, the loaded model is the one that the
    /// search began with; else it is that model as it has grown.
    pub fn finish_search(
        &mut self,
        search: Search,
        run: Result<(), MinionError>,
        nodes: &Option<String>,
    ) -> (result: Result<SolveSuccess, SolverError>)
        requires
            run is Ok && search@.hook_error is None ==> (*nodes matches Some(text)
                ==> written_number(text@) is Some),
        ensures
            final(self)@ == after_search(old(self)@, search@, run),
            match (run, search@.hook_error, result) {
                (Err(error), _, Err(failure)) => failure@ == reported(error),
                (Ok(()), Some(error), Err(failure)) => failure@ == error,
                (Ok(()), None, Ok(success)) => success == (SolveSuccess {
                    stats: SolverStats { nodes: nodes_of(*nodes) },
                    status: status_of(search@),
                }),
                _ => false,
            },
    {
        if let Err(error) = run {
            return Err(report(error));
        }
        self.model = Some(search.model);
        if let Some(error) = search.hook_error {
            return Err(error);
        }
        let status = if search.user_terminated {
            SearchStatus::Incomplete(SearchIncomplete::UserTerminated)
        } else if search.any_solutions {
            SearchStatus::Complete(SearchComplete::HasSolutions)
        } else {
            SearchStatus::Complete(SearchComplete::NoSolutions)
        };
        Ok(SolveSuccess { stats: get_solver_stats(nodes), status })
    }

    /// Solving with a callback that may change the model is not to be had.
    pub fn solve_mut(&self) -> (result: Result<SolveSuccess, SolverError>)
        ensures
            result matches Err(error) && error@ == SolverErrorView::OpNotImplemented(
                "solve_mut"@,
            ),
    {
        Err(SolverError::OpNotImplemented("solve_mut".to_owned()))
    }

    /// The family that Minion belongs to.
    pub fn get_family(&self) -> (family: SolverFamily)
        ensures
            family == SolverFamily::Minion,
    {
        SolverFamily::Minion
    }

    /// The name of the adaptor.
    pub fn get_name(&self) -> (name: &'static str)
        ensures
            name@ == "minion"@,
    {
        "minion"
    }

    /// Whether a model is loaded.
    pub fn is_loaded(&self) -> (loaded: bool)
        ensures
            loaded == self@.model is Some,
    {
        self.model.is_some()
    }

    /// The model that is written to a solver input file.
    pub fn solver_input(&self) -> (model: &MinionModel)
        requires
            self@.model is Some,
        ensures
            Some(model@) == self@.model,
    {
        self.model.as_ref().unwrap()
    }
}

} // verus!
