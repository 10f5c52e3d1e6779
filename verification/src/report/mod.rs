//! The text that a check shows.

pub mod graph;
pub mod layout;
pub mod paint;
pub mod results;
pub mod session;
