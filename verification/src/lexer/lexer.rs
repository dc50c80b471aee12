//! The character source and the tokenizer on top of it.

use super::source::can_advance;
use super::source::has_read;
use super::source::in_range;
use super::source::lemma_has_read_more;
use super::source::lemma_has_read_nothing;
use super::source::lemma_has_read_one;
use super::source::lookahead;
use super::source::scanned;
use super::source::Source;
use super::syntax::advance;
use super::syntax::has_dot;
use super::syntax::lemma_has_dot_push;
use super::syntax::is_disallowed;
use super::syntax::line_run;
use super::syntax::numeral_run;
use super::syntax::scan_comment;
use super::syntax::scan_ident;
use super::syntax::scan_lpar;
use super::syntax::scan_next;
use super::syntax::scan_number;
use super::syntax::scan_rpar;
use super::syntax::scan_string;
use super::syntax::scan_token;
use super::syntax::string_body;
use super::syntax::symbol_run;
use super::syntax::whitespace_run;
use super::syntax::Position;
use super::syntax::Scan;
use super::text::trim_text;
use super::text::trimmed;
use super::token::LexError;
use super::token::Token;
use super::token::TokenView;
use vstd::prelude::*;

verus! {

/// Whether `c` may not occur in a symbol.
pub fn disallowed(c: char) -> (r: bool)
    ensures
        r == is_disallowed(c),
{
    c == '[' || c == ']' || c == '{' || c == '}' || c == '(' || c == ')' || c == '|' || c == '\\'
        || c == '/' || c == '\'' || c == '"' || c == '#' || c == ','
}

/// A source of characters with one character of lookahead, and the tokenizer
/// that reads from it.
///
/// An implementation supplies the character source: `peek`, `get` and the
/// line and column counters. What it stands for is the sequence of characters
/// it has yet to hand out and the place it has reached, [`Lexer::source`]:
/// every contract below is stated over that. The tokenizer is provided on top
/// of the character source, and is proved for every implementation that keeps
/// to the contracts of `peek`, `get` and the counters.
///
/// The counters are 32 bits wide. A character is only read where its counter
/// can follow, and the tokenizer is only run on a source whose remaining text
/// fits the counters as a whole ([`in_range`]).
pub trait Lexer {
    /// What this source stands for: the characters it has yet to hand out
    /// and the place it has reached.
    ///
    /// An implementation says here what it stands for. One that leaves this
    /// as it is says nothing of itself, and nothing is known of what it
    /// hands out.
    open spec fn source(&self) -> Source {
        arbitrary()
    }

    /// Hands out the next character, if there is one, and moves the position
    /// past it. At the end of the input nothing changes.
    fn get(&mut self) -> (c: Option<char>)
        requires
            old(self).source().remaining.len() > 0 ==> can_advance(
                old(self).source().position,
                old(self).source().remaining[0],
            ),
        ensures
            c == lookahead(old(self).source().remaining),
            c matches Some(first) ==> {
                &&& final(self).source().remaining == old(self).source().remaining.skip(1)
                &&& final(self).source().position == advance(old(self).source().position, first)
            },
            c is None ==> {
                &&& final(self).source().remaining == old(self).source().remaining
                &&& final(self).source().position == old(self).source().position
            },
    ;

    /// The next character, if there is one. Nothing is read.
    fn peek(&self) -> (c: Option<char>)
        ensures
            c == lookahead(self.source().remaining),
    ;

    /// Sets the line counter.
    fn set_line(&mut self, line: u32)
        ensures
            final(self).source().position == (Position {
                line: line as nat,
                chr: old(self).source().position.chr,
            }),
            final(self).source().remaining == old(self).source().remaining,
    ;

    /// Sets the column counter.
    fn set_chr(&mut self, chr: u32)
        ensures
            final(self).source().position == (Position {
                line: old(self).source().position.line,
                chr: chr as nat,
            }),
            final(self).source().remaining == old(self).source().remaining,
    ;

    /// The line of the next character.
    fn line(&self) -> (line: u32)
        ensures
            line == self.source().position.line,
    ;

    /// The column of the next character.
    fn chr(&self) -> (chr: u32)
        ensures
            chr == self.source().position.chr,
    ;

    /// Moves the position past `c`: to the start of the next line for a
    /// newline, one column on for any other character.
    fn count(&mut self, c: char)
        requires
            can_advance(old(self).source().position, c),
        ensures
            final(self).source().position == advance(old(self).source().position, c),
            final(self).source().remaining == old(self).source().remaining,
    {
        let line = self.line();
        let chr = self.chr();

        match c {
            '\n' => {
                self.set_line(line + 1);
                self.set_chr(1);
            },
            _ => {
                self.set_chr(chr + 1);
            },
        }
    }

    /// Reads and drops the whitespace in front.
    fn consume_whitespace(&mut self)
        requires
            in_range(old(self).source()),
        ensures
            has_read(
                old(self).source(),
                final(self).source(),
                whitespace_run(old(self).source().remaining),
            ),
            in_range(final(self).source()),
    {
        let ghost mut read: nat = 0;
        proof {
            lemma_has_read_nothing(self.source());
        }
        loop
            invariant
                in_range(self.source()),
                has_read(old(self).source(), self.source(), read),
                whitespace_run(old(self).source().remaining) == read + whitespace_run(
                    self.source().remaining,
                ),
            ensures
                whitespace_run(self.source().remaining) == 0,
            decreases self.source().remaining.len(),
        {
            match self.peek() {
                Some(c) => {
                    if !c.is_whitespace() {
                        break ;
                    } else {
                        let ghost before = self.source();
                        self.get();
                        proof {
                            lemma_has_read_one(before, self.source());
                            lemma_has_read_more(old(self).source(), before, self.source(), read, 1);
                            read = read + 1;
                        }
                    }
                },
                None => {
                    break ;
                },
            }
        }
    }

    /// Reads one character as an opening parenthesis.
    fn lpar(&mut self) -> (r: Result<Token, LexError>)
        requires
            in_range(old(self).source()),
        ensures
            scanned(
                old(self).source(),
                final(self).source(),
                r,
                scan_lpar(old(self).source().remaining, old(self).source().position),
            ),
            in_range(final(self).source()),
    {
        let line = self.line();
        let chr = self.chr();
        let ghost before = self.source();
        self.get();
        proof {
            if before.remaining.len() > 0 {
                lemma_has_read_one(before, self.source());
            } else {
                lemma_has_read_nothing(before);
            }
        }
        Ok(Token::LPAR(line, chr))
    }

    /// Reads one character as a closing parenthesis.
    fn rpar(&mut self) -> (r: Result<Token, LexError>)
        requires
            in_range(old(self).source()),
        ensures
            scanned(
                old(self).source(),
                final(self).source(),
                r,
                scan_rpar(old(self).source().remaining, old(self).source().position),
            ),
            in_range(final(self).source()),
    {
        let line = self.line();
        let chr = self.chr();
        let ghost before = self.source();
        self.get();
        proof {
            if before.remaining.len() > 0 {
                lemma_has_read_one(before, self.source());
            } else {
                lemma_has_read_nothing(before);
            }
        }
        Ok(Token::RPAR(line, chr))
    }

    /// Reads a comment: everything up to and including the end of the line.
    fn comment(&mut self) -> (r: Result<Token, LexError>)
        requires
            in_range(old(self).source()),
        ensures
            scanned(
                old(self).source(),
                final(self).source(),
                r,
                scan_comment(old(self).source().remaining, old(self).source().position),
            ),
            in_range(final(self).source()),
    {
        let line = self.line();
        let chr = self.chr();
        let mut comment = String::new();
        let ghost start = self.source();
        let ghost s = start.remaining;
        let ghost mut read: nat = 0;
        proof {
            lemma_has_read_nothing(start);
        }

        loop
            invariant_except_break
                line_run(s) == read + line_run(self.source().remaining),
                comment@ == s.take(read as int),
            invariant
                in_range(self.source()),
                has_read(start, self.source(), read),
                start == old(self).source(),
                s == start.remaining,
            ensures
                scan_comment(s, start.position).used == read,
                comment@ == s.take(line_run(s) as int),
            decreases self.source().remaining.len(),
        {
            let ghost before = self.source();
            match self.get() {
                Some(c) => {
                    proof {
                        lemma_has_read_one(before, self.source());
                        lemma_has_read_more(start, before, self.source(), read, 1);
                    }
                    if c != '\n' {
                        comment.push(c);
                        proof {
                            read = read + 1;
                        }
                    } else {
                        proof {
                            read = read + 1;
                        }
                        break ;
                    }
                },
                None => {
                    break ;
                },
            }
        }

        Ok(Token::COMMENT(trim_text(&comment), line, chr))
    }

    /// Reads a string literal: the opening quote, then the inside of the
    /// literal up to and including the quote that closes it.
    fn string(&mut self) -> (r: Result<Token, LexError>)
        requires
            in_range(old(self).source()),
        ensures
            scanned(
                old(self).source(),
                final(self).source(),
                r,
                scan_string(old(self).source().remaining, old(self).source().position),
            ),
            in_range(final(self).source()),
    {
        let mut string = String::new();
        let start_line = self.line();
        let start_chr = self.chr();
        let ghost start = self.source();
        let ghost s = start.remaining;

        /* consume first quotation mark */
        self.get();
        let ghost mut read: nat = if s.len() > 0 { 1 } else { 0 };
        let ghost opened: nat = read;
        let ghost body = string_body(self.source().remaining);
        proof {
            if s.len() > 0 {
                lemma_has_read_one(start, self.source());
            } else {
                lemma_has_read_nothing(start);
            }
        }

        loop
            invariant_except_break
                body.closed == string_body(self.source().remaining).closed,
                body.text == string@ + string_body(self.source().remaining).text,
                body.used + opened == read + string_body(self.source().remaining).used,
            invariant
                in_range(self.source()),
                has_read(start, self.source(), read),
                start == old(self).source(),
                s == start.remaining,
                opened == (if s.len() > 0 { 1nat } else { 0nat }),
                s.len() > 0 ==> body == string_body(s.skip(1)),
                s.len() == 0 ==> body == string_body(s),
                start_line == start.position.line,
                start_chr == start.position.chr,
            ensures
                !body.closed,
                body.text == string@,
                body.used + opened == read,
            decreases self.source().remaining.len(),
        {
            let ghost before = self.source();
            match self.get() {
                Some(c) => {
                    proof {
                        lemma_has_read_one(before, self.source());
                        lemma_has_read_more(start, before, self.source(), read, 1);
                        read = read + 1;
                    }
                    if c == '\\' {
                        /* after a backslash, unconditionally take the next character */
                        let ghost escaped = self.source();
                        match self.get() {
                            Some(next) => {
                                string.push(next);
                                proof {
                                    lemma_has_read_one(escaped, self.source());
                                    lemma_has_read_more(start, escaped, self.source(), read, 1);
                                    assert(before.remaining.skip(2) =~= self.source().remaining);
                                    read = read + 1;
                                }
                            },
                            None => {
                                break ;
                            },
                        }
                    } else if c == '\n' {
                        break ;
                    } else if c == '"' {
                        return Ok(Token::STRING(string, start_line, start_chr));
                    } else {
                        string.push(c);
                    }
                },
                None => {
                    break ;
                },
            }
        }
        Err(LexError::UNTERMINATED(string, start_line, start_chr))
    }

    /// Reads a numeral: an optional minus sign, then digits with at most one
    /// dot, up to and including the character that ends them.
    fn number(&mut self) -> (r: Result<Token, LexError>)
        requires
            in_range(old(self).source()),
        ensures
            scanned(
                old(self).source(),
                final(self).source(),
                r,
                scan_number(old(self).source().remaining, old(self).source().position),
            ),
            in_range(final(self).source()),
    {
        let mut number = String::new();
        let start_line = self.line();
        let start_chr = self.chr();
        let mut float = false;
        let ghost start = self.source();
        let ghost s = start.remaining;
        let ghost mut read: nat = 0;
        proof {
            lemma_has_read_nothing(start);
        }

        match self.peek() {
            Some(c) => {
                if c == '-' {
                    number.push('-');
                    self.get();
                    proof {
                        lemma_has_read_one(start, self.source());
                        read = 1;
                    }
                }
            },
            None => {},
        }
        let ghost sign: int = read as int;

        loop
            invariant_except_break
                numeral_run(s.skip(sign), false) == read - sign + numeral_run(
                    self.source().remaining,
                    float,
                ),
                number@ == s.take(read as int),
                float == has_dot(s.subrange(sign, read as int)),
            invariant
                in_range(self.source()),
                has_read(start, self.source(), read),
                start == old(self).source(),
                s == start.remaining,
                sign == (if s.len() > 0 && s[0] == '-' { 1int } else { 0int }),
                sign <= read,
                start_line == start.position.line,
                start_chr == start.position.chr,
            ensures
                scan_number(s, start.position) == (Scan {
                    result: Ok(
                        TokenView::number(
                            trimmed(number@),
                            float,
                            start_line as nat,
                            start_chr as nat,
                        ),
                    ),
                    used: read,
                }),
            decreases self.source().remaining.len(),
        {
            let ghost before = self.source();
            match self.get() {
                Some(c) => {
                    number.push(c);
                    proof {
                        lemma_has_read_one(before, self.source());
                        lemma_has_read_more(start, before, self.source(), read, 1);
                        assert(s.take(read as int + 1) =~= s.take(read as int).push(c));
                        assert(s.subrange(sign, read as int + 1) =~= s.subrange(
                            sign,
                            read as int,
                        ).push(c));
                        lemma_has_dot_push(s.subrange(sign, read as int), c);
                    }
                    if '0' <= c && c <= '9' {
                        proof {
                            read = read + 1;
                        }
                    } else if c == '.' {
                        if float {
                            return Err(LexError::FLOAT(number, start_line, start_chr));
                        } else {
                            float = true;
                            proof {
                                read = read + 1;
                            }
                        }
                    } else if c.is_whitespace() {
                        proof {
                            read = read + 1;
                        }
                        break ;
                    } else {
                        return Err(LexError::number(number, float, start_line, start_chr));
                    }
                },
                None => {
                    assert(s.take(read as int) =~= s);
                    break ;
                },
            }
        }

        Ok(Token::number(trim_text(&number), float, start_line, start_chr))
    }

    /// Reads a symbol: the run of symbol characters in front, and the
    /// character that ends it.
    fn ident(&mut self) -> (r: Result<Token, LexError>)
        requires
            in_range(old(self).source()),
        ensures
            scanned(
                old(self).source(),
                final(self).source(),
                r,
                scan_ident(old(self).source().remaining, old(self).source().position),
            ),
            in_range(final(self).source()),
    {
        let start_line = self.line();
        let start_chr = self.chr();
        let mut ident = String::new();
        let ghost start = self.source();
        let ghost s = start.remaining;
        let ghost mut read: nat = 0;
        proof {
            lemma_has_read_nothing(start);
        }

        loop
            invariant_except_break
                symbol_run(s) == read + symbol_run(self.source().remaining),
                ident@ == s.take(read as int),
            invariant
                in_range(self.source()),
                has_read(start, self.source(), read),
                start == old(self).source(),
                s == start.remaining,
                start_line == start.position.line,
                start_chr == start.position.chr,
            ensures
                scan_ident(s, start.position) == (Scan {
                    result: Ok(TokenView::IDENT(ident@, start_line as nat, start_chr as nat)),
                    used: read,
                }),
            decreases self.source().remaining.len(),
        {
            let ghost before = self.source();
            match self.get() {
                Some(c) => {
                    proof {
                        lemma_has_read_one(before, self.source());
                        lemma_has_read_more(start, before, self.source(), read, 1);
                    }
                    if disallowed(c) {
                        return Err(LexError::IDENT(ident, start_line, start_chr));
                    } else if c.is_whitespace() {
                        proof {
                            read = read + 1;
                        }
                        break ;
                    } else {
                        ident.push(c);
                        proof {
                            read = read + 1;
                        }
                    }
                },
                None => {
                    break ;
                },
            }
        }

        Ok(Token::IDENT(ident, start_line, start_chr))
    }

    /// Reads one token from text that does not start with whitespace. The
    /// first character decides what is read; one that starts no token is
    /// reported and left in place.
    fn read_token(&mut self) -> (r: Result<Token, LexError>)
        requires
            in_range(old(self).source()),
        ensures
            scanned(
                old(self).source(),
                final(self).source(),
                r,
                scan_token(old(self).source().remaining, old(self).source().position),
            ),
            in_range(final(self).source()),
    {
        proof {
            lemma_has_read_nothing(self.source());
        }
        match self.peek() {
            Some(c) => {
                if c == '(' {
                    self.lpar()
                } else if c == ')' {
                    self.rpar()
                } else if c == ';' {
                    self.comment()
                } else if c == '"' {
                    self.string()
                } else if ('0' <= c && c <= '9') || c == '-' || c == '.' {
                    self.number()
                } else if 'A' <= c && c <= 'z' {
                    self.ident()
                } else {
                    Err(LexError::INVALID(c, self.line(), self.chr()))
                }
            },
            None => Err(LexError::END(self.line(), self.chr())),
        }
    }

    /// Produces the next token: skips the whitespace in front, then reads one
    /// token, or reports that the input has ended.
    fn next(&mut self) -> (r: Result<Token, LexError>)
        requires
            in_range(old(self).source()),
        ensures
            scanned(
                old(self).source(),
                final(self).source(),
                r,
                scan_next(old(self).source().remaining, old(self).source().position),
            ),
            in_range(final(self).source()),
    {
        self.consume_whitespace();
        let ghost middle = self.source();
        let r = match self.peek() {
            None => {
                proof {
                    lemma_has_read_nothing(middle);
                }
                Err(LexError::END(self.line(), self.chr()))
            },
            Some(_) => self.read_token(),
        };
        proof {
            let gap = whitespace_run(old(self).source().remaining);
            let token = scan_token(middle.remaining, middle.position);
            lemma_has_read_more(old(self).source(), middle, self.source(), gap, token.used);
        }
        r
    }
}

} // verus!
