//! The analysis of a document by guidance.

use vstd::prelude::*;

use crate::diagnostics::Diagnostic;
use crate::guidance::{self, Guide};
use crate::model::Model;

verus! {

/// The result of an analysis.
#[derive(Debug)]
pub struct AnalysisResult {
    pub model: Model,
    pub guides: Vec<Guide>,
}

/// The engine that analyses documents.
#[derive(Debug, Clone, Copy)]
pub struct Kernel;

impl Default for Kernel {
    fn default() -> (r: Self)
        ensures
            r == Kernel,
    {
        Kernel::new()
    }
}

impl Kernel {
    pub fn new() -> (r: Self)
        ensures
            r == Kernel,
    {
        Kernel
    }

    /// Analyses a document that was brought into a graph, or could not be.
    pub fn analyse(&self, projected: Result<Model, Vec<Diagnostic>>) -> (r: Result<
        AnalysisResult,
        Vec<Diagnostic>,
    >)
        ensures
            match projected {
                Ok(model) => r is Ok && r->Ok_0.model == model && guidance::guide_views(
                    r->Ok_0.guides@,
                ) == guidance::guides_in(model@),
                Err(list) => r == Err::<AnalysisResult, Vec<Diagnostic>>(list),
            },
    {
        let model = projected?;
        let guides = guidance::guidance(&model);
        Ok(AnalysisResult { model, guides })
    }
}

} // verus!
