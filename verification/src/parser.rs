//! Text-to-AST parsing: expressions over a token stream with operator
//! precedence, line-level statements, brace-delimited function blocks, and
//! whole programs.

pub mod parse_expression;
pub mod parse_statement;
pub mod parse_function;
pub mod parse_program;
