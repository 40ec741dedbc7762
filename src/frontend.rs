//! The seam between a language frontend, which turns source text into the
//! bridge representation, and the driver that runs it.
use vstd::prelude::*;
use crate::bridge::BridgeModule;

verus! {

/// A language frontend: parses a whole source text into a bridge module, or
/// says why it could not.
pub trait LanguageFrontend {
    fn parse(&self, source: &str) -> Result<BridgeModule, String>;
}

/// Drives one frontend.
pub struct Orchestrator<F: LanguageFrontend> {
    pub frontend: F,
}

impl<F: LanguageFrontend> Orchestrator<F> {
    pub fn new(frontend: F) -> (r: Self)
        ensures
            r.frontend == frontend,
    {
        Orchestrator { frontend }
    }
}

} // verus!
