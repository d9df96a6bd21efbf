//! A tree-walking evaluator for a small Lisp: reader, value model, lexical
//! environments, evaluator and the built-in library, each with a contract
//! over a mathematical model of the data it handles.

pub mod console;
pub mod environment;
pub mod error;
pub mod eval;
pub mod expr;
pub mod laws;
pub mod library;
pub mod printer;
pub mod reader;
pub mod repl;
pub mod roundtrip;
pub mod semantics;
pub mod types;
