//! What errors say, word for word.
use crate::error::{
    adding_constraint_failed, adding_variable_failed, missing_domain, reported,
    rewriting_failed, tracking_variable_failed, unexpected_search_variable, MinionError,
    SolverErrorView,
};
use crate::injection::{blocker_failed, BlockerError};
use crate::text::debug_quoted;
use vstd::prelude::*;

verus! {

/// What each failure of adding a dominance constraint is reported as, whatever the name and the
/// reason are.
pub proof fn law_what_failures_say(name: Seq<char>, reason: Seq<char>)
    ensures
        rewriting_failed(reason) == SolverErrorView::Runtime(
            "Failed to rewrite dominance constraint for Minion solving: "@ + reason,
        ),
        unexpected_search_variable(name) == SolverErrorView::Runtime(
            "Dominance constraint introduced unexpected search variable "@ + debug_quoted(name)
                + " during Minion solving"@,
        ),
        missing_domain(name) == SolverErrorView::Runtime(
            "Missing Minion domain for dominance variable "@ + debug_quoted(name),
        ),
        adding_variable_failed(name, reason) == SolverErrorView::Runtime(
            "Failed adding Minion dominance variable "@ + debug_quoted(name) + ": "@ + reason,
        ),
        tracking_variable_failed(name) == SolverErrorView::Runtime(
            "Failed tracking Minion dominance variable "@ + debug_quoted(name),
        ),
        adding_constraint_failed(reason) == SolverErrorView::Runtime(
            "Failed adding Minion dominance constraint during search: "@ + reason,
        ),
{
}

/// What each error inside Minion is reported as, and each lack of a model of the dominance
/// constraint.
pub proof fn law_what_is_reported(error: MinionError, lack: BlockerError)
    ensures
        match error {
            MinionError::RuntimeError(text) => reported(error) == SolverErrorView::Runtime(text@),
            MinionError::Other(text) => reported(error) == SolverErrorView::Runtime(text@),
            MinionError::NotImplemented(text) => reported(error)
                == SolverErrorView::RuntimeNotImplemented(text@),
            MinionError::Unknown(text) => reported(error) == SolverErrorView::Runtime(
                "unknown minion_sys error: "@ + text@,
            ),
        },
        match lack {
            BlockerError::Rewriting(reason) => blocker_failed(lack) == SolverErrorView::Runtime(
                "Failed to rewrite dominance constraint for Minion solving: "@ + reason@,
            ),
            BlockerError::Translation(error) => blocker_failed(lack) == error@,
        },
{
}

/// Failures that name different reasons say different things.
pub proof fn law_reasons_are_told(name: Seq<char>, one: Seq<char>, other: Seq<char>)
    requires
        one != other,
    ensures
        rewriting_failed(one) != rewriting_failed(other),
        adding_constraint_failed(one) != adding_constraint_failed(other),
        adding_variable_failed(name, one) != adding_variable_failed(name, other),
{
    lemma_behind("Failed to rewrite dominance constraint for Minion solving: "@, one, other);
    lemma_behind("Failed adding Minion dominance constraint during search: "@, one, other);
    lemma_behind(
        "Failed adding Minion dominance variable "@ + debug_quoted(name) + ": "@,
        one,
        other,
    );
}

proof fn lemma_behind(start: Seq<char>, one: Seq<char>, other: Seq<char>)
    requires
        one != other,
    ensures
        start + one != start + other,
{
    if start + one == start + other {
        assert((start + one).skip(start.len() as int) =~= one);
        assert((start + other).skip(start.len() as int) =~= other);
    }
}

} // verus!
