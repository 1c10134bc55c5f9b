//! A small interpreter for a parenthesised expression language.

pub mod ast;
pub mod env;
pub mod eval;
pub mod grammar;
pub mod lex;
pub mod sexpr;
pub mod syntax;
mod text;
