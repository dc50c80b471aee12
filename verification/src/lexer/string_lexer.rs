//! A character source over text held in memory.

use super::lexer::Lexer;
use super::source::in_range;
use super::source::lemma_short_text_fits;
use super::source::Source;
use super::syntax::Position;
use vstd::prelude::*;
use vstd::utf8::encode_utf8;
use vstd::utf8::is_ascii_chars;

verus! {

/// Every byte read as the character with that code.
pub open spec fn bytes_as_chars(bytes: Seq<u8>) -> Seq<char> {
    Seq::new(bytes.len(), |i: int| bytes[i] as char)
}

/// Text of ASCII characters, encoded and read back byte by byte, is itself.
pub proof fn lemma_ascii_bytes_as_chars(text: Seq<char>)
    requires
        is_ascii_chars(text),
    ensures
        bytes_as_chars(encode_utf8(text)) == text,
{
    vstd::utf8::is_ascii_chars_encode_utf8(text);
    assert(bytes_as_chars(encode_utf8(text)) =~= text);
}

/// A character source over a text held in memory. It reads the text byte by
/// byte: every byte of its UTF-8 encoding is handed out as one character, so
/// ASCII text comes out as it is.
pub struct StringLexer {
    input: Vec<u8>,
    index: usize,
    line: u32,
    chr: u32,
}

impl StringLexer {
    /// A source at the start of `input`, at line 1, column 1. Input of fewer
    /// bytes than a 32-bit counter can count is in range of the tokenizer.
    pub fn new(input: String) -> (lexer: StringLexer)
        ensures
            lexer.source() == (Source {
                remaining: bytes_as_chars(encode_utf8(input@)),
                position: Position { line: 1, chr: 1 },
            }),
            is_ascii_chars(input@) ==> lexer.source().remaining == input@,
            encode_utf8(input@).len() < u32::MAX ==> in_range(lexer.source()),
    {
        proof {
            if is_ascii_chars(input@) {
                lemma_ascii_bytes_as_chars(input@);
            }
            if encode_utf8(input@).len() < u32::MAX {
                lemma_short_text_fits(
                    bytes_as_chars(encode_utf8(input@)),
                    Position { line: 1, chr: 1 },
                );
            }
        }
        let lexer = StringLexer { input: input.as_str().as_bytes_vec(), index: 0, line: 1, chr: 1 };
        assert(lexer.input@.skip(0) =~= lexer.input@);
        lexer
    }
}

impl Lexer for StringLexer {
    closed spec fn source(&self) -> Source {
        Source {
            remaining: if self.index <= self.input.len() {
                bytes_as_chars(self.input@.skip(self.index as int))
            } else {
                Seq::empty()
            },
            position: Position { line: self.line as nat, chr: self.chr as nat },
        }
    }

    fn get(&mut self) -> (c: Option<char>) {
        match self.peek() {
            Some(c) => {
                self.index = self.index + 1;
                self.count(c);
                Some(c)
            },
            None => None,
        }
    }

    fn peek(&self) -> (c: Option<char>) {
        if self.index < self.input.len() {
            Some(self.input[self.index] as char)
        } else {
            None
        }
    }

    fn set_line(&mut self, line: u32) {
        self.line = line
    }

    fn set_chr(&mut self, chr: u32) {
        self.chr = chr
    }

    fn line(&self) -> (line: u32) {
        self.line
    }

    fn chr(&self) -> (chr: u32) {
        self.chr
    }
}

} // verus!
