//! Front-end core for a minimal arithmetic expression language: a tokenizer
//! that turns source text into a stream of typed tokens, and a
//! recursive-descent parser that builds precedence-correct expression trees.

pub mod ast;
pub mod lexer;
pub mod parser;
