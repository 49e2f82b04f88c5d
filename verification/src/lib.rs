//! Core of an interactive arithmetic expression evaluator.
//!
//! A line of text is turned into tokens by the lexer, the tokens are built
//! into an expression tree by a recursive-descent parser, and the tree is
//! evaluated against a persistent variable environment.  Every stage returns
//! a recoverable [`error::Error`]; the first failure aborts the stage for
//! that line, and side effects of already-completed sub-evaluations are kept.

pub mod ast;
pub mod env;
pub mod error;
pub mod eval;
pub mod lexer;
pub mod parser;
pub mod token;
