//! Front end and evaluator of Shikibu, a small scripting language with
//! Japanese keywords and blocks that are set off by indentation.
//!
//! A program passes through the library from text to result:
//!
//! - [`scanner`] reads the characters of the source into raw tokens;
//! - [`sanitizer`] drops spaces, comments and blank lines, and marks the
//!   blocks that the indentation stands for;
//! - [`tokens`] holds the normalised tokens for the parser to take from
//!   the front;
//! - [`expr_parser`] and [`parser`] build the syntax tree, [`ast`], out of
//!   [`node`]s;
//! - [`interpreter`] runs the tree as a machine that takes one step at a
//!   time, over the states that [`machine`] and [`frame`] describe and the
//!   values of [`value`].
//!
//! The machine computes with integers alone. Where a program does
//! arithmetic on its numbers, which are doubles, or prints a line, the
//! machine asks the program that runs it to do so and waits for the answer.

pub mod ast;
pub mod error;
pub mod expr_parser;
pub mod frame;
pub mod interpreter;
pub mod keyword;
pub mod lexeme;
pub mod machine;
pub mod node;
pub mod parser;
pub mod sanitizer;
pub mod scanner;
pub mod symbol;
pub mod text;
pub mod token;
pub mod tokens;
pub mod value;
