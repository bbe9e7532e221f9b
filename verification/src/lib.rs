//! A small expression language for defining named values whose right-hand
//! sides may reference other named values regardless of textual order.
//!
//! The pipeline is: source text -> [`lexer::lexer`] -> token stream ->
//! [`parser::parse`] -> statement sequence -> [`interpreter::resolve_and_evaluate`]
//! -> a name-to-value mapping, or an accumulated error list from the first
//! stage that fails.

pub mod span;
pub mod number;
pub mod strutil;
pub mod ast;
pub mod value;
pub mod error;
pub mod operators;
pub mod eval;
pub mod lexer;
pub mod parser;
pub mod interpreter;
pub mod laws;
