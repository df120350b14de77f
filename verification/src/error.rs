//! The errors of solving.
use crate::text::{debug_quoted, debug_text};
use vstd::prelude::*;
use vstd::string::StringExecFns;

verus! {

/// Why a solver failed.
#[derive(Debug, PartialEq, Eq)]
pub enum SolverError {
    /// The adaptor has no such operation.
    OpNotImplemented(String),
    /// The solver met something at run time that it has no support for.
    RuntimeNotImplemented(String),
    /// Solving went wrong.
    Runtime(String),
    /// Anything else.
    Other(String),
}

/// What a [`SolverError`] says.
pub enum SolverErrorView {
    OpNotImplemented(Seq<char>),
    RuntimeNotImplemented(Seq<char>),
    Runtime(Seq<char>),
    Other(Seq<char>),
}

impl SolverError {
    pub open spec fn view(&self) -> SolverErrorView {
        match self {
            SolverError::OpNotImplemented(text) => SolverErrorView::OpNotImplemented(text@),
            SolverError::RuntimeNotImplemented(text) => SolverErrorView::RuntimeNotImplemented(
                text@,
            ),
            SolverError::Runtime(text) => SolverErrorView::Runtime(text@),
            SolverError::Other(text) => SolverErrorView::Other(text@),
        }
    }
}

/// What went wrong inside Minion. The texts are those by which the solver shows its errors.
#[derive(Debug, PartialEq, Eq)]
pub enum MinionError {
    RuntimeError(String),
    NotImplemented(String),
    Other(String),
    /// An error of a kind that is not known here.
    Unknown(String),
}

/// What an error inside Minion is reported as.
pub open spec fn reported(error: MinionError) -> SolverErrorView {
    match error {
        MinionError::RuntimeError(text) => SolverErrorView::Runtime(text@),
        MinionError::Other(text) => SolverErrorView::Runtime(text@),
        MinionError::NotImplemented(text) => SolverErrorView::RuntimeNotImplemented(text@),
        MinionError::Unknown(text) => SolverErrorView::Runtime(
            "unknown minion_sys error: "@ + text@,
        ),
    }
}

/// Reports an error inside Minion.
pub fn report(error: MinionError) -> (reported_error: SolverError)
    ensures
        reported_error@ == reported(error),
{
    match error {
        MinionError::RuntimeError(text) => SolverError::Runtime(text),
        MinionError::Other(text) => SolverError::Runtime(text),
        MinionError::NotImplemented(text) => SolverError::RuntimeNotImplemented(text),
        MinionError::Unknown(text) => SolverError::Runtime(
            "unknown minion_sys error: ".to_owned().concat(text.as_str()),
        ),
    }
}

/// That the rewriting of the dominance constraint failed.
pub open spec fn rewriting_failed(reason: Seq<char>) -> SolverErrorView {
    SolverErrorView::Runtime(
        "Failed to rewrite dominance constraint for Minion solving: "@ + reason,
    )
}

/// Tells that the rewriting of the dominance constraint failed.
pub fn rewriting_failure(reason: &str) -> (error: SolverError)
    ensures
        error@ == rewriting_failed(reason@),
{
    SolverError::Runtime(
        "Failed to rewrite dominance constraint for Minion solving: ".to_owned().concat(reason),
    )
}

/// That a dominance constraint brought in a variable that would have to be searched.
pub open spec fn unexpected_search_variable(name: Seq<char>) -> SolverErrorView {
    SolverErrorView::Runtime(
        "Dominance constraint introduced unexpected search variable "@ + debug_quoted(name)
            + " during Minion solving"@,
    )
}

/// Tells that a dominance constraint brought in a variable that would have to be searched.
pub fn unexpected_search_variable_error(name: &str) -> (error: SolverError)
    ensures
        error@ == unexpected_search_variable(name@),
{
    SolverError::Runtime(
        "Dominance constraint introduced unexpected search variable ".to_owned().concat(
            debug_text(name).as_str(),
        ).concat(" during Minion solving"),
    )
}

/// That a variable of a dominance constraint has no domain.
pub open spec fn missing_domain(name: Seq<char>) -> SolverErrorView {
    SolverErrorView::Runtime(
        "Missing Minion domain for dominance variable "@ + debug_quoted(name),
    )
}

/// Tells that a variable of a dominance constraint has no domain.
pub fn missing_domain_error(name: &str) -> (error: SolverError)
    ensures
        error@ == missing_domain(name@),
{
    SolverError::Runtime(
        "Missing Minion domain for dominance variable ".to_owned().concat(
            debug_text(name).as_str(),
        ),
    )
}

/// That Minion did not take a variable of a dominance constraint.
pub open spec fn adding_variable_failed(name: Seq<char>, reason: Seq<char>) -> SolverErrorView {
    SolverErrorView::Runtime(
        "Failed adding Minion dominance variable "@ + debug_quoted(name) + ": "@ + reason,
    )
}

/// Tells that Minion did not take a variable of a dominance constraint.
pub fn adding_variable_error(name: &str, reason: &str) -> (error: SolverError)
    ensures
        error@ == adding_variable_failed(name@, reason@),
{
    SolverError::Runtime(
        "Failed adding Minion dominance variable ".to_owned().concat(
            debug_text(name).as_str(),
        ).concat(": ").concat(reason),
    )
}

/// That a variable of a dominance constraint is there already.
pub open spec fn tracking_variable_failed(name: Seq<char>) -> SolverErrorView {
    SolverErrorView::Runtime("Failed tracking Minion dominance variable "@ + debug_quoted(name))
}

/// Tells that a variable of a dominance constraint is there already.
pub fn tracking_variable_error(name: &str) -> (error: SolverError)
    ensures
        error@ == tracking_variable_failed(name@),
{
    SolverError::Runtime(
        "Failed tracking Minion dominance variable ".to_owned().concat(debug_text(name).as_str()),
    )
}

/// That Minion did not take a dominance constraint.
pub open spec fn adding_constraint_failed(reason: Seq<char>) -> SolverErrorView {
    SolverErrorView::Runtime(
        "Failed adding Minion dominance constraint during search: "@ + reason,
    )
}

/// Tells that Minion did not take a dominance constraint.
pub fn adding_constraint_error(reason: &str) -> (error: SolverError)
    ensures
        error@ == adding_constraint_failed(reason@),
{
    SolverError::Runtime(
        "Failed adding Minion dominance constraint during search: ".to_owned().concat(reason),
    )
}

} // verus!
