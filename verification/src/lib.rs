//! A tree-walking interpreter for a small dynamically typed scripting
//! language: C-like expressions, variables, block scoping, conditionals,
//! loops, and a built-in `print` statement.
//!
//! The pipeline is scanner -> parser -> interpreter. The scanner turns source
//! text into a token sequence and batches lexical errors. The parser builds an
//! abstract syntax tree by recursive descent over a fixed operator-precedence
//! cascade. The interpreter walks the tree against a chain of lexical scopes,
//! collecting printed lines in an output buffer; a driver decides what to do
//! with the buffered lines and diagnostics.
//!
//! Numbers are 64-bit signed integers. Arithmetic is checked: overflow and
//! division by zero raise runtime errors instead of wrapping or panicking.
//! Statement execution is bounded by an explicit step budget so that every
//! function here terminates; exhausting the budget is reported as a runtime
//! error, and a caller that wants an effectively unbounded run passes
//! `u64::MAX`.

pub mod environment;
pub mod lox;
pub mod parser;
pub mod scanner;
pub mod expr;
pub mod interpreter;
pub mod stmt;
pub mod text;
pub mod token_type;
