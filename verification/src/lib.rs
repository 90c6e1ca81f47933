//! The core of a tree-walking interpreter for Lox, a small dynamically typed
//! language: a scanner, a recursive-descent parser, a lexically scoped
//! environment chain and an evaluator, each with a machine-checked contract.
//!
//! Source text goes one way through four stages:
//!
//! 1. `scanner` turns the text into tokens;
//! 2. `numerals` gives the number tokens the values that the host reads from
//!    their digits;
//! 3. `parser` turns the tokens into statements, as `grammar` defines it;
//! 4. `interpreter` runs the statements in steps, as `machine` defines it,
//!    with the variables of the program in an `environment`.
//!
//! The library holds a number by its IEEE-754 encoding and never rounds.
//! It negates and compares numbers itself. What rounds is asked of the
//! host: reading a numeral, adding, subtracting, multiplying and dividing,
//! and writing a number in decimal. The host also owns the output: a run
//! hands it each line to print, and tells it how the program ended.

pub mod token_type;
pub mod number;
pub mod literal;
pub mod text;
pub mod token;
pub mod error;
pub mod scanner;
pub mod numerals;
pub mod expr;
pub mod stmt;
pub mod grammar;
pub mod parser;
pub mod environment;
pub mod operators;
pub mod machine;
pub mod interpreter;
