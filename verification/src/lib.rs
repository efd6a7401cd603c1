//! A verified tree-walking evaluator for a small Lisp-family language.
//!
//! Text is read into a `MalType` syntax tree, evaluated against a chain of
//! lexically scoped environments, and printed back as text.  The evaluator
//! runs as an explicit loop so that tail calls do not grow the call stack,
//! and takes a fuel bound so that every function here terminates.

pub mod env;
pub mod eval;
pub mod functions;
pub mod logger;
pub mod printer;
pub mod reader;
pub mod roundtrip;
pub mod text;
pub mod types;

pub use types::MalType;
