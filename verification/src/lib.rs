//! WA2: an architecture reasoning system.

pub mod advice;
pub mod core_engine;
pub mod diagnostics;
pub mod documents;
pub mod guidance;
pub mod kernel;
pub mod model;
pub mod names;
pub mod report;
pub mod shown;
pub mod system;
pub mod text;
pub mod vendor;
