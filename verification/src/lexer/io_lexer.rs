//! A character source over an incremental supply of bytes.

use super::source::can_advance;
use super::syntax::advance;
use super::syntax::Position;
use vstd::prelude::*;

verus! {

/// A read that failed.
#[derive(Debug)]
pub struct ReadError;

/// An incremental supply of bytes, such as an open file.
///
/// Nothing is assumed about what a supply delivers: whatever it answers, the
/// lexer on top of it keeps to its own rules.
pub trait ByteSource {
    /// Reads the next byte into `buf`, and answers how many bytes it has
    /// read: `Ok(0)` when the supply has run dry.
    fn read(&mut self, buf: &mut [u8; 1]) -> Result<usize, ReadError>;
}

/// Whether the answer to a read means that no more characters will come: the
/// supply has run dry, or the read has failed.
pub open spec fn is_end(outcome: Result<usize, ReadError>) -> bool {
    outcome is Err || outcome == Ok::<usize, ReadError>(0)
}

/// A character source over an incremental supply of bytes. It reads one byte
/// ahead, and hands out every byte as the character with that code. Once a
/// read fails or finds nothing, the source is at its end and stays there.
pub struct IOLexer<T: ByteSource> {
    input: T,
    buf: [u8; 1],
    eof: bool,
    line: u32,
    chr: u32,
}

impl<T: ByteSource> IOLexer<T> {
    /// The supply that this source reads from.
    pub closed spec fn input(&self) -> T {
        self.input
    }

    /// The byte that was read last.
    pub closed spec fn buffered(&self) -> u8 {
        self.buf[0]
    }

    /// Whether the supply has ended.
    pub closed spec fn at_end(&self) -> bool {
        self.eof
    }

    /// The line and column of the next character.
    pub closed spec fn position(&self) -> Position {
        Position { line: self.line as nat, chr: self.chr as nat }
    }

    /// The character that was read ahead, if the supply has not ended.
    pub open spec fn lookahead(&self) -> Option<char> {
        if self.at_end() {
            None
        } else {
            Some(self.buffered() as char)
        }
    }

    /// A source over `input`, at line 1, column 1, with the first byte read
    /// ahead.
    pub fn new(input: T) -> (lexer: IOLexer<T>)
        ensures
            lexer.position() == (Position { line: 1, chr: 1 }),
    {
        let mut lexer = IOLexer { input: input, buf: [0], eof: false, line: 1, chr: 1 };
        lexer.read_char();
        lexer
    }

    /// Reads one byte ahead.
    fn read_char(&mut self)
        ensures
            final(self).position() == old(self).position(),
            old(self).at_end() ==> final(self).at_end(),
    {
        let outcome = self.input.read(&mut self.buf);
        self.settle(outcome);
    }

    /// Takes note of the answer to a read: the source is at its end from now
    /// on if the supply has run dry or the read has failed. Nothing else
    /// changes.
    pub fn settle(&mut self, outcome: Result<usize, ReadError>)
        ensures
            final(self).at_end() == (old(self).at_end() || is_end(outcome)),
            final(self).buffered() == old(self).buffered(),
            final(self).position() == old(self).position(),
            final(self).input() == old(self).input(),
    {
        match outcome {
            Ok(n) => {
                if n == 0 {
                    self.eof = true;
                }
            },
            Err(_) => {
                self.eof = true;
            },
        }
    }

    /// Whether the supply has ended.
    pub fn eof(&self) -> (eof: bool)
        ensures
            eof == self.at_end(),
    {
        self.eof
    }

    /// Moves the position past `c`.
    fn count(&mut self, c: char)
        requires
            can_advance(old(self).position(), c),
        ensures
            final(self).position() == advance(old(self).position(), c),
            final(self).at_end() == old(self).at_end(),
            final(self).buffered() == old(self).buffered(),
            final(self).input() == old(self).input(),
    {
        if c == '\n' {
            self.line = self.line + 1;
            self.chr = 1;
        } else {
            self.chr = self.chr + 1;
        }
    }

    /// Hands out the character read ahead, if there is one, reads the next
    /// byte ahead and moves the position past the character. At the end of
    /// the input nothing is read and nothing changes.
    pub fn get(&mut self) -> (c: Option<char>)
        requires
            old(self).lookahead() matches Some(first) ==> can_advance(old(self).position(), first),
        ensures
            c == old(self).lookahead(),
            c matches Some(first) ==> final(self).position() == advance(
                old(self).position(),
                first,
            ),
            c is None ==> *final(self) == *old(self),
    {
        match self.peek() {
            None => None,
            Some(c) => {
                self.read_char();
                self.count(c);
                Some(c)
            },
        }
    }

    /// The character read ahead, if the supply has not ended. Nothing is read.
    pub fn peek(&self) -> (c: Option<char>)
        ensures
            c == self.lookahead(),
    {
        if self.eof {
            None
        } else {
            Some(self.buf[0] as char)
        }
    }

    /// Sets the line counter.
    pub fn set_line(&mut self, line: u32)
        ensures
            final(self).position() == (Position {
                line: line as nat,
                chr: old(self).position().chr,
            }),
            final(self).lookahead() == old(self).lookahead(),
            final(self).input() == old(self).input(),
    {
        self.line = line
    }

    /// Sets the column counter.
    pub fn set_chr(&mut self, chr: u32)
        ensures
            final(self).position() == (Position {
                line: old(self).position().line,
                chr: chr as nat,
            }),
            final(self).lookahead() == old(self).lookahead(),
            final(self).input() == old(self).input(),
    {
        self.chr = chr
    }

    /// The line of the next character.
    pub fn line(&self) -> (line: u32)
        ensures
            line == self.position().line,
    {
        self.line
    }

    /// The column of the next character.
    pub fn chr(&self) -> (chr: u32)
        ensures
            chr == self.position().chr,
    {
        self.chr
    }
}

} // verus!
