//! A small symbolic-expression language: a lexer, a resumable parser, an
//! evaluator over a mutable name-binding environment, and the catalog of
//! native operations the evaluator dispatches to.

pub mod ast;
pub mod env;
pub mod error;
pub mod eval;
pub mod flt;
pub mod laws;
pub mod lexer;
pub mod ops;
pub mod parser;
pub mod render;
pub mod text;
pub mod token;
