//! A tree-walking interpreter for a small, dynamically typed expression
//! language: a lexer, a Pratt parser and an evaluator over chained scopes,
//! each stated against a mathematical model and proved to follow it.
//!
//! * [`lexer`] turns a source text into tokens.
//! * [`parser`] turns tokens into a program; [`parser::grammar`] says which.
//! * [`ast`] holds the syntax trees.
//! * [`eval`] gives a program its value in an environment;
//!   [`eval::semantics`] says which.
//! * [`display`] writes values, tokens and errors out.
//! * [`laws`] states what holds of every value and every program.
//!
//! Every type has a mathematical value, its view, and every function says
//! in its contract what it returns in terms of these values. The
//! interpreter bounds its own nesting: the parser rejects expressions that
//! nest deeper than [`parser::MAX_NESTING`] levels or whose trees are
//! higher than [`parser::MAX_HEIGHT`], and the evaluator ends with an error
//! where it nests deeper than the depth it is given
//! ([`eval::MAX_DEPTH`] by default).

pub mod ast;
pub mod display;
pub mod equal;
pub mod eval;
pub mod laws;
pub mod lexer;
pub mod parser;
pub mod text;

pub use ast::{Expression, InfixOperator, PrefixOperator, Program, Statement};
pub use lexer::{Lexer, Token};
pub use parser::Parser;
