//! The analysis kernel.

pub mod analysis;
pub mod ast;
pub mod finding_laws;
pub mod forms;
pub mod laws;
pub mod paths;
pub mod policy_laws;
pub mod query;
pub mod query_laws;
pub mod rules;
pub mod run_laws;
pub mod semantics;
pub mod traversal;
pub mod values;
