//! The parser's hold on its lexer.

use crate::lexer::Lexer;
use vstd::prelude::*;

verus! {

/// A parser over a lexer. It owns the lexer and hands it out to whoever
/// drives the reading.
#[derive(Debug)]
pub struct Parser<T: Lexer> {
    lexer: T,
}

impl<T: Lexer> Parser<T> {
    /// The lexer that this parser reads from.
    pub closed spec fn lexer(&self) -> T {
        self.lexer
    }

    /// A parser that reads from `lexer`.
    pub fn new(lexer: T) -> (parser: Parser<T>)
        ensures
            parser.lexer() == lexer,
    {
        Parser { lexer: lexer }
    }

    /// The parser's lexer, to read from. What is read through the reference
    /// is read from the parser's lexer.
    pub fn get_lexer(&mut self) -> (lexer: &mut T)
        ensures
            *lexer == old(self).lexer(),
            final(self).lexer() == *final(lexer),
    {
        &mut self.lexer
    }
}

} // verus!
