//! A PEG grammar toolkit. Grammar sources are read into a grammar model,
//! inheritance chains are flattened by override/extend merging, a flattened
//! grammar is checked and compiled, and its public rules run over a cursor
//! with ordered choice and full backtracking.
pub mod bridge;
pub mod compiler;
pub mod cursor;
pub mod error;
pub mod frontend;
pub mod loader;
pub mod model;
pub mod parser;
pub mod resolver;
pub mod safety;
pub mod semantics;
pub mod value;
