//! An adaptor between constraint models and the solver Minion, with dominance programming.
pub mod adaptor;
pub mod adaptor_laws;
pub mod dominance;
pub mod dominance_laws;
pub mod error;
pub mod expression;
pub mod injection;
pub mod injection_laws;
pub mod logic_laws;
pub mod meaning;
pub mod message_laws;
pub mod minion_ast;
pub mod model;
pub mod name;
pub mod name_laws;
pub mod number_laws;
pub mod outcome_laws;
pub mod posting_laws;
pub mod protocol_laws;
pub mod represented;
pub mod represented_laws;
pub mod rewrite;
pub mod search_laws;
pub mod session_laws;
pub mod simplify;
pub mod solution;
pub mod termination;
pub mod text;
pub mod view_laws;
