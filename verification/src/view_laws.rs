//! What values say: each says all that it holds, and nothing else.
use crate::error::{SolverError, SolverErrorView};
use crate::expression::{
    expression_views, literal_views, optional_view, Atom, AtomView, Expression, Head, Literal,
    LiteralView, Reference,
};
use crate::injection::{outcome_view, reply_view, Request, RequestView};
use crate::minion_ast::{
    constraint_views, domain_views, name_views, var_views, Constraint, ConstraintView,
    MinionModel, NamedVariables, Var, VarDomain, VarDomainView, VarView,
};
use crate::model::{
    chain_views, clause_views, declaration_views, Declaration, Model, Representation,
};
use crate::name::{Name, NameView};
use crate::simplify::optional_literal;
use vstd::prelude::*;

verus! {

/// A name says which text, which number, or which parts it holds.
pub proof fn law_what_a_name_says(name: Name)
    ensures
        match name {
            Name::User(text) => name@ == NameView::User(text@),
            Name::Machine(n) => name@ == NameView::Machine(n),
            Name::Represented(parts) => name@ == NameView::Represented(
                Box::new(parts.0@),
                parts.1@,
                parts.2@,
            ),
        },
{
}

/// A literal says its number, its truth value, or its items in order.
pub proof fn law_what_a_literal_says(literal: Literal)
    ensures
        match literal {
            Literal::Int(n) => literal@ == LiteralView::Int(n),
            Literal::Bool(b) => literal@ == LiteralView::Bool(b),
            Literal::Matrix(items, index) => {
                &&& literal@ is Matrix
                &&& literal@->Matrix_1 == index
                &&& literal@->Matrix_0.len() == items@.len()
                &&& forall|i: int|
                    0 <= i < items@.len() ==> #[trigger] literal@->Matrix_0[i] == items@[i]@
            },
            Literal::Collection(kind, items) => {
                &&& literal@ is Collection
                &&& literal@->Collection_0 == kind
                &&& literal@->Collection_1.len() == items@.len()
                &&& forall|i: int|
                    0 <= i < items@.len() ==> #[trigger] literal@->Collection_1[i] == items@[i]@
            },
        },
{
}

/// A reference says its name and its domain, and an atom which of the two it is.
pub proof fn law_what_an_atom_says(atom: Atom, reference: Reference)
    ensures
        reference@.name == reference.name@,
        reference@.domain == reference.domain,
        match atom {
            Atom::Literal(literal) => atom@ == AtomView::Literal(literal@),
            Atom::Reference(reference) => atom@ == AtomView::Reference(reference@),
        },
{
}

/// An expression says what stands at its root, and what its operands say, in order.
pub proof fn law_what_an_expression_says(expression: Expression)
    ensures
        match expression {
            Expression::Atomic(atom) => expression@.head == Head::Atomic(atom@)
                && expression@.operands.len() == 0,
            Expression::FromSolution(atom) => expression@.head == Head::FromSolution(atom@)
                && expression@.operands.len() == 0,
            Expression::Matrix(items, index) => {
                &&& expression@.head == Head::Matrix(index)
                &&& expression@.operands.len() == items@.len()
                &&& forall|i: int|
                    0 <= i < items@.len() ==> #[trigger] expression@.operands[i] == items@[i]@
            },
            Expression::Not(x) => expression@.head == Head::Not && expression@.operands == seq![
                x@,
            ],
            Expression::And(x) => expression@.head == Head::And && expression@.operands == seq![
                x@,
            ],
            Expression::Or(x) => expression@.head == Head::Or && expression@.operands == seq![x@],
            Expression::Imply(x, y) => expression@.head == Head::Imply && expression@.operands
                == seq![x@, y@],
            Expression::DominanceRelation(x) => expression@.head == Head::DominanceRelation
                && expression@.operands == seq![x@],
            Expression::Operation(operator, operands) => {
                &&& expression@.head == Head::Operation(operator@)
                &&& expression@.operands.len() == operands@.len()
                &&& forall|i: int|
                    0 <= i < operands@.len() ==> #[trigger] expression@.operands[i]
                        == operands@[i]@
            },
        },
{
}

/// Lists of literals and of expressions say what their items say, in order, and what may be
/// missing says whether it is.
pub proof fn law_what_lists_say(
    literals: Seq<Literal>,
    expressions: Seq<Expression>,
    literal: Option<Literal>,
    expression: Option<Expression>,
)
    ensures
        literal_views(literals).len() == literals.len(),
        forall|i: int|
            0 <= i < literals.len() ==> #[trigger] literal_views(literals)[i] == literals[i]@,
        expression_views(expressions).len() == expressions.len(),
        forall|i: int|
            0 <= i < expressions.len() ==> #[trigger] expression_views(expressions)[i]
                == expressions[i]@,
        literal is None <==> optional_literal(literal) is None,
        literal matches Some(given) ==> optional_literal(literal) == Some(given@),
        expression is None <==> optional_view(expression) is None,
        expression matches Some(given) ==> optional_view(expression) == Some(given@),
{
}

/// A declaration says its name, its domain and all its representations, in order.
pub proof fn law_what_a_declaration_says(
    declaration: Declaration,
    chains: Seq<Vec<Representation>>,
)
    ensures
        declaration@.name == declaration.name@,
        declaration@.domain == declaration.domain,
        declaration.representations is None <==> declaration@.representations is None,
        declaration.representations matches Some(given) ==> declaration@.representations == Some(
            chain_views(given@),
        ),
        chain_views(chains).len() == chains.len(),
        forall|i: int| 0 <= i < chains.len() ==> #[trigger] chain_views(chains)[i] == chains[i]@,
{
}

/// A model says all its declarations, constraints and clauses, in order, its dominance relation
/// and its rule sets.
pub proof fn law_what_a_model_says(model: Model)
    ensures
        model@.symbols.len() == model.symbols@.len(),
        forall|i: int|
            0 <= i < model.symbols@.len() ==> #[trigger] model@.symbols[i] == model.symbols@[i]@,
        model@.constraints.len() == model.constraints@.len(),
        forall|i: int|
            0 <= i < model.constraints@.len() ==> #[trigger] model@.constraints[i]
                == model.constraints@[i]@,
        model@.clauses.len() == model.clauses@.len(),
        forall|i: int|
            0 <= i < model.clauses@.len() ==> #[trigger] model@.clauses[i] == expression_views(
                model.clauses@[i]@,
            ),
        model.dominance is None <==> model@.dominance is None,
        model.dominance matches Some(given) ==> model@.dominance == Some(given@),
        model@.rule_sets == model.rule_sets@,
        declaration_views(model.symbols@) == model@.symbols,
        clause_views(model.clauses@) == model@.clauses,
{
}

/// A variable of Minion, and a domain, say all that they hold.
pub proof fn law_what_a_variable_says(var: Var, domain: VarDomain)
    ensures
        match var {
            Var::NameRef(name) => var@ == VarView::NameRef(name@),
            Var::ConstantAsVar(n) => var@ == VarView::ConstantAsVar(n),
        },
        match domain {
            VarDomain::Bool => domain@ == VarDomainView::Bool,
            VarDomain::Discrete(low, high) => domain@ == VarDomainView::Discrete(low, high),
            VarDomain::Bound(low, high) => domain@ == VarDomainView::Bound(low, high),
            VarDomain::SparseBound(values) => domain@ == VarDomainView::SparseBound(values@),
        },
{
}

/// Lists of variables and of constraints say what their items say, in order.
pub proof fn law_what_lists_of_constraints_say(vars: Seq<Var>, constraints: Seq<Constraint>)
    ensures
        var_views(vars).len() == vars.len(),
        forall|i: int| 0 <= i < vars.len() ==> #[trigger] var_views(vars)[i] == vars[i]@,
        constraint_views(constraints).len() == constraints.len(),
        forall|i: int|
            0 <= i < constraints.len() ==> #[trigger] constraint_views(constraints)[i]
                == constraints[i]@,
{
}

/// A constraint of Minion says its kind, and its variables, constants and parts, in order.
pub proof fn law_what_a_constraint_says(constraint: Constraint)
    ensures
        match constraint {
            Constraint::True => constraint@ == ConstraintView::True,
            Constraint::False => constraint@ == ConstraintView::False,
            Constraint::Eq(x, y) => constraint@ == ConstraintView::Eq(x@, y@),
            Constraint::WLiteral(x, value) => constraint@ == ConstraintView::WLiteral(x@, value),
            Constraint::WatchedAnd(items) => {
                &&& constraint@ is WatchedAnd
                &&& constraint@->WatchedAnd_0.len() == items@.len()
                &&& forall|i: int|
                    0 <= i < items@.len() ==> #[trigger] constraint@->WatchedAnd_0[i] == items@[i]@
            },
            Constraint::WatchedOr(items) => {
                &&& constraint@ is WatchedOr
                &&& constraint@->WatchedOr_0.len() == items@.len()
                &&& forall|i: int|
                    0 <= i < items@.len() ==> #[trigger] constraint@->WatchedOr_0[i] == items@[i]@
            },
            Constraint::WatchSumGeq(vars, sum) => constraint@ == ConstraintView::WatchSumGeq(
                var_views(vars@),
                sum,
            ),
            Constraint::WatchSumLeq(vars, sum) => constraint@ == ConstraintView::WatchSumLeq(
                var_views(vars@),
                sum,
            ),
            Constraint::WeightedSumLeq(weights, vars, sum) => constraint@
                == ConstraintView::WeightedSumLeq(weights@, var_views(vars@), sum@),
            Constraint::Other(name, vars) => constraint@ == ConstraintView::Other(
                name@,
                var_views(vars@),
            ),
        },
{
}

/// A model for Minion says all its variables, with their domains and in their orders, and all its
/// constraints, in order.
pub proof fn law_what_a_minion_model_says(model: MinionModel, variables: NamedVariables)
    ensures
        model@.named_variables == model.named_variables@,
        model@.constraints == constraint_views(model.constraints@),
        variables@.domains.len() == variables.domains@.len(),
        forall|i: int|
            0 <= i < variables.domains@.len() ==> (#[trigger] variables@.domains[i]) == (
                variables.domains@[i].0@,
                variables.domains@[i].1@,
            ),
        variables@.variable_order.len() == variables.variable_order@.len(),
        forall|i: int|
            0 <= i < variables.variable_order@.len() ==> #[trigger] variables@.variable_order[i]
                == variables.variable_order@[i]@,
        variables@.search_order.len() == variables.search_order@.len(),
        forall|i: int|
            0 <= i < variables.search_order@.len() ==> #[trigger] variables@.search_order[i]
                == variables.search_order@[i]@,
        domain_views(variables.domains@) == variables@.domains,
        name_views(variables.variable_order@) == variables@.variable_order,
{
}

/// An error says of which kind it is, and its text; an outcome says whether there is an error, and
/// which one; a request says what is asked for.
pub proof fn law_what_outcomes_say(
    error: SolverError,
    outcome: Result<(), SolverError>,
    reply: Result<(), String>,
    request: Request,
)
    ensures
        match error {
            SolverError::OpNotImplemented(text) => error@ == SolverErrorView::OpNotImplemented(
                text@,
            ),
            SolverError::RuntimeNotImplemented(text) => error@
                == SolverErrorView::RuntimeNotImplemented(text@),
            SolverError::Runtime(text) => error@ == SolverErrorView::Runtime(text@),
            SolverError::Other(text) => error@ == SolverErrorView::Other(text@),
        },
        match outcome {
            Ok(()) => outcome_view(outcome) == Ok::<(), SolverErrorView>(()),
            Err(error) => outcome_view(outcome) == Err::<(), SolverErrorView>(error@),
        },
        match reply {
            Ok(()) => reply_view(reply) == Ok::<(), Seq<char>>(()),
            Err(reason) => reply_view(reply) == Err::<(), Seq<char>>(reason@),
        },
        match request {
            Request::AddVariable(name, domain) => request@ == RequestView::AddVariable(
                name@,
                domain@,
            ),
            Request::AddConstraint(constraint) => request@ == RequestView::AddConstraint(
                constraint@,
            ),
            Request::Nothing => request@ == RequestView::Nothing,
        },
{
}

} // verus!
