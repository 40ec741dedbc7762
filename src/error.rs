//! What can go wrong while a grammar is resolved or compiled.
use vstd::prelude::*;

verus! {

/// A fault in grammar definitions. Each one stops compilation: no parser is
/// built from a grammar that has one.
#[derive(Debug, PartialEq, Eq)]
pub enum GrammarError {
    /// A grammar on the chain was not supplied: the path of the file it
    /// would come from.
    GrammarFileNotFound(String),
    /// A grammar source does not follow the grammar format: the offset (in
    /// characters) where reading stopped, and what was expected there.
    GrammarSyntaxError { position: usize, message: String },
    /// A grammar inherits from itself; the chain of names ends with the name
    /// that comes back.
    GrammarCycleError(Vec<String>),
    /// A rule calls a name that is neither a rule nor a built-in primitive.
    UnknownRuleReference { rule: String, referenced: String },
    /// A rule repeats, with `*` or `+`, a pattern that can match the empty input.
    EmptyMatchRepetitionError { rule: String },
}

} // verus!

verus! {

/// Why a rule did not match: the deepest offset that a failing attempt
/// reached, and what was expected there.
#[derive(Debug, PartialEq, Eq)]
pub struct ParseFailure {
    pub position: usize,
    pub expected: String,
}

} // verus!
