//! The surface syntax, stated over sequences of characters.
//!
//! Every scanner is described by what it makes of the characters still to
//! come: the token or error it yields and how many characters it uses up.

use super::text::white_space;
use super::text::trimmed;
use super::token::LexErrorView;
use super::token::TokenView;
use vstd::prelude::*;

verus! {

/// A place in the text: line and column, both counted from 1.
pub struct Position {
    pub line: nat,
    pub chr: nat,
}

/// The place reached from `at` by reading `c`: a newline leads to the start
/// of the next line, any other character one column on.
pub open spec fn advance(at: Position, c: char) -> Position {
    if c == '\n' {
        Position { line: at.line + 1, chr: 1 }
    } else {
        Position { line: at.line, chr: at.chr + 1 }
    }
}

/// The place reached from `at` by reading all of `s`.
pub open spec fn position_after(s: Seq<char>, at: Position) -> Position
    decreases s.len(),
{
    if s.len() == 0 {
        at
    } else {
        advance(position_after(s.drop_last(), at), s.last())
    }
}

/// What a scanner makes of the text in front of it.
pub struct Scan {
    /// The token, or the reason there is none.
    pub result: Result<TokenView, LexErrorView>,
    /// How many characters were read to find out.
    pub used: nat,
}

/// A decimal digit.
pub open spec fn is_digit(c: char) -> bool {
    '0' <= c <= '9'
}

/// A character that a numeral may start with.
pub open spec fn starts_number(c: char) -> bool {
    is_digit(c) || c == '-' || c == '.'
}

/// A character that a symbol may start with.
pub open spec fn starts_symbol(c: char) -> bool {
    'A' <= c <= 'z'
}

/// A character that may not occur in a symbol.
pub open spec fn is_disallowed(c: char) -> bool {
    c == '[' || c == ']' || c == '{' || c == '}' || c == '(' || c == ')' || c == '|' || c == '\\'
        || c == '/' || c == '\'' || c == '"' || c == '#' || c == ','
}

/// The length of the run of whitespace that `s` starts with.
pub open spec fn whitespace_run(s: Seq<char>) -> nat
    decreases s.len(),
{
    if s.len() > 0 && white_space(s.first()) {
        1 + whitespace_run(s.drop_first())
    } else {
        0
    }
}

/// The number of characters of `s` before its first newline.
pub open spec fn line_run(s: Seq<char>) -> nat
    decreases s.len(),
{
    if s.len() > 0 && s.first() != '\n' {
        1 + line_run(s.drop_first())
    } else {
        0
    }
}

/// The length of the run of symbol characters that `s` starts with: those
/// that are neither disallowed nor whitespace.
pub open spec fn symbol_run(s: Seq<char>) -> nat
    decreases s.len(),
{
    if s.len() > 0 && !is_disallowed(s.first()) && !white_space(s.first()) {
        1 + symbol_run(s.drop_first())
    } else {
        0
    }
}

/// The length of the run of digits that `s` starts with, in which one dot may
/// stand unless `seen_dot` says that it came before.
pub open spec fn numeral_run(s: Seq<char>, seen_dot: bool) -> nat
    decreases s.len(),
{
    if s.len() > 0 && is_digit(s.first()) {
        1 + numeral_run(s.drop_first(), seen_dot)
    } else if s.len() > 0 && s.first() == '.' && !seen_dot {
        1 + numeral_run(s.drop_first(), true)
    } else {
        0
    }
}

/// Whether `s` holds a dot.
pub open spec fn has_dot(s: Seq<char>) -> bool {
    s.contains('.')
}

/// A dot is in `s` with one more character exactly if it is in `s` or is that
/// character.
pub proof fn lemma_has_dot_push(s: Seq<char>, c: char)
    ensures
        has_dot(s.push(c)) == (has_dot(s) || c == '.'),
{
    if has_dot(s) {
        let i = choose|i: int| 0 <= i < s.len() && s[i] == '.';
        assert(s.push(c)[i] == '.');
    }
    if c == '.' {
        assert(s.push(c)[s.len() as int] == '.');
    }
}

/// The inside of a string literal, read from just behind the opening quote.
pub struct StringBody {
    /// Whether the closing quote was found.
    pub closed: bool,
    /// The text read, escapes resolved.
    pub text: Seq<char>,
    /// How many characters were read.
    pub used: nat,
}

/// Reads the inside of a string literal from `s`. A backslash takes the
/// character behind it as it is; an unescaped quote closes the literal; an
/// unescaped newline or the end of the text leaves it open.
pub open spec fn string_body(s: Seq<char>) -> StringBody
    decreases s.len(),
{
    if s.len() == 0 {
        StringBody { closed: false, text: Seq::empty(), used: 0 }
    } else if s[0] == '\\' {
        if s.len() == 1 {
            StringBody { closed: false, text: Seq::empty(), used: 1 }
        } else {
            let rest = string_body(s.skip(2));
            StringBody { closed: rest.closed, text: seq![s[1]] + rest.text, used: rest.used + 2 }
        }
    } else if s[0] == '\n' {
        StringBody { closed: false, text: Seq::empty(), used: 1 }
    } else if s[0] == '"' {
        StringBody { closed: true, text: Seq::empty(), used: 1 }
    } else {
        let rest = string_body(s.skip(1));
        StringBody { closed: rest.closed, text: seq![s[0]] + rest.text, used: rest.used + 1 }
    }
}

/// One parenthesis: a single character is read, whatever it is.
pub open spec fn scan_lpar(s: Seq<char>, at: Position) -> Scan {
    Scan { result: Ok(TokenView::LPAR(at.line, at.chr)), used: if s.len() > 0 { 1 } else { 0 } }
}

/// One parenthesis: a single character is read, whatever it is.
pub open spec fn scan_rpar(s: Seq<char>, at: Position) -> Scan {
    Scan { result: Ok(TokenView::RPAR(at.line, at.chr)), used: if s.len() > 0 { 1 } else { 0 } }
}

/// A comment runs to the end of its line. The newline is read and dropped;
/// the text before it is trimmed.
pub open spec fn scan_comment(s: Seq<char>, at: Position) -> Scan {
    let n = line_run(s);
    Scan {
        result: Ok(TokenView::COMMENT(trimmed(s.take(n as int)), at.line, at.chr)),
        used: if n < s.len() { n + 1 } else { n },
    }
}

/// A string literal: the first character is read as the opening quote, the
/// rest as the inside of the literal.
pub open spec fn scan_string(s: Seq<char>, at: Position) -> Scan {
    if s.len() == 0 {
        Scan { result: Err(LexErrorView::UNTERMINATED(Seq::empty(), at.line, at.chr)), used: 0 }
    } else {
        let body = string_body(s.skip(1));
        Scan {
            result: if body.closed {
                Ok(TokenView::STRING(body.text, at.line, at.chr))
            } else {
                Err(LexErrorView::UNTERMINATED(body.text, at.line, at.chr))
            },
            used: 1 + body.used,
        }
    }
}

/// A numeral: an optional minus sign, then digits with at most one dot. The
/// character behind that run is read too. If it is whitespace, or if the text
/// ends with the run, the numeral is the trimmed text read; any other
/// character makes the text read, up to and including it, an error. With a
/// dot in the run the numeral, or the error, is that of a float.
pub open spec fn scan_number(s: Seq<char>, at: Position) -> Scan {
    let sign: int = if s.len() > 0 && s[0] == '-' { 1 } else { 0 };
    let end: int = sign + numeral_run(s.skip(sign), false);
    let is_float = has_dot(s.subrange(sign, end));
    if end == s.len() {
        Scan {
            result: Ok(TokenView::number(trimmed(s), is_float, at.line, at.chr)),
            used: s.len(),
        }
    } else {
        let stop = s[end];
        let lexeme = s.take(end + 1);
        Scan {
            result: if stop != '.' && white_space(stop) {
                Ok(TokenView::number(trimmed(lexeme), is_float, at.line, at.chr))
            } else {
                Err(LexErrorView::number(lexeme, is_float, at.line, at.chr))
            },
            used: (end + 1) as nat,
        }
    }
}

/// A symbol: the run of symbol characters in front. The character behind the
/// run is read too. If it is a disallowed one, the run is an error; if it is
/// whitespace, or if the text ends with the run, the run is the symbol.
pub open spec fn scan_ident(s: Seq<char>, at: Position) -> Scan {
    let n = symbol_run(s);
    let text = s.take(n as int);
    if n < s.len() && is_disallowed(s[n as int]) {
        Scan { result: Err(LexErrorView::IDENT(text, at.line, at.chr)), used: n + 1 }
    } else {
        Scan {
            result: Ok(TokenView::IDENT(text, at.line, at.chr)),
            used: if n < s.len() { n + 1 } else { n },
        }
    }
}

/// One token, read from text that does not start with whitespace: the first
/// character decides which scanner reads it. A character that starts no token
/// is reported and not read.
pub open spec fn scan_token(s: Seq<char>, at: Position) -> Scan {
    if s.len() == 0 {
        Scan { result: Err(LexErrorView::END(at.line, at.chr)), used: 0 }
    } else if s[0] == '(' {
        scan_lpar(s, at)
    } else if s[0] == ')' {
        scan_rpar(s, at)
    } else if s[0] == ';' {
        scan_comment(s, at)
    } else if s[0] == '"' {
        scan_string(s, at)
    } else if starts_number(s[0]) {
        scan_number(s, at)
    } else if starts_symbol(s[0]) {
        scan_ident(s, at)
    } else {
        Scan { result: Err(LexErrorView::INVALID(s[0], at.line, at.chr)), used: 0 }
    }
}

/// The next token: leading whitespace is read and dropped, then one token is
/// read, which starts where the whitespace ends.
pub open spec fn scan_next(s: Seq<char>, at: Position) -> Scan {
    let gap = whitespace_run(s);
    let token = scan_token(s.skip(gap as int), position_after(s.take(gap as int), at));
    Scan { result: token.result, used: gap + token.used }
}

} // verus!
