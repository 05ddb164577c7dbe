//! A verified front end and tree-walking interpreter for a minimal,
//! line-oriented toy programming language: functions with typed parameters,
//! integer and string literals, variable declarations, binary arithmetic and
//! comparison, conditional branches, and function calls.
//!
//! The pipeline has three stages: text-to-AST parsing, a best-effort static
//! type check, and environment-threaded recursive evaluation with
//! overflow-checked arithmetic, starting at the `main` entry function.

pub mod ast;
pub mod environment;
pub mod semantics;
pub mod evaluator;
pub mod type_checker;
pub mod parser;
pub mod laws;
pub mod source;
pub mod strutil;
