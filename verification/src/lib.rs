//! A small logic-programming engine: a database of ground facts and of rule
//! clauses, keyed by name and arity, that is queried by conjunctions of
//! goals. A successful query yields one witness: the bindings of its
//! variables.
//!
//! The data are modelled by their mathematical content (`view`), and the
//! module `semantics` states over that content what it means to prove a
//! goal. The functions of `query` and `load` are proved to compute exactly
//! that, and `laws` proves what holds of every proof.
use vstd::prelude::*;

pub mod environment;
pub mod eval;
pub mod fact;
pub mod gast;
pub mod laws;
pub mod load;
pub mod parser;
pub mod query;
pub mod record;
pub mod render;
pub mod rule;
pub mod scope;
pub mod semantics;
pub mod symbol_map;
pub mod value;
