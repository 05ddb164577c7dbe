//! Tree-walking evaluation: binary operations, function evaluation with
//! environment threading, whole-program evaluation, and re-serialization of
//! expressions to source text.

pub mod binary_op;
pub mod evaluate_function;
pub mod evaluate_program;
pub mod stringify_expression;
