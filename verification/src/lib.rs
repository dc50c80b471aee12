//! A tokenizer for a small Lisp-like surface syntax.
//!
//! A character source hands out characters one at a time and keeps track of
//! the line and column it has reached; the tokenizer built on top of it turns
//! those characters into tokens, each tagged with the position it started at.

pub mod lexer;
pub mod parser;
