//! Tokens, lexical errors, and what each of them stands for.

use vstd::prelude::*;

verus! {

/// A classified piece of source text. The last two fields of every variant are
/// the line and column, counted from 1, at which the token starts.
#[derive(PartialEq, Debug)]
pub enum Token {
    /// An opening parenthesis.
    LPAR(u32, u32),
    /// A closing parenthesis.
    RPAR(u32, u32),
    /// A comment: the text from the marker to the end of the line, trimmed.
    COMMENT(String, u32, u32),
    /// A string literal: the text between the quotes, escapes resolved.
    STRING(String, u32, u32),
    /// A numeral without a dot, as written.
    INTEGER(String, u32, u32),
    /// A numeral with one dot, as written.
    FLOAT(String, u32, u32),
    /// A bare symbol, as written.
    IDENT(String, u32, u32),
}

/// What a [`Token`] stands for: its text as a sequence of characters, its
/// position as natural numbers.
pub enum TokenView {
    LPAR(nat, nat),
    RPAR(nat, nat),
    COMMENT(Seq<char>, nat, nat),
    STRING(Seq<char>, nat, nat),
    INTEGER(Seq<char>, nat, nat),
    FLOAT(Seq<char>, nat, nat),
    IDENT(Seq<char>, nat, nat),
}

impl View for Token {
    type V = TokenView;

    open spec fn view(&self) -> TokenView {
        match *self {
            Token::LPAR(line, chr) => TokenView::LPAR(line as nat, chr as nat),
            Token::RPAR(line, chr) => TokenView::RPAR(line as nat, chr as nat),
            Token::COMMENT(text, line, chr) => TokenView::COMMENT(text@, line as nat, chr as nat),
            Token::STRING(text, line, chr) => TokenView::STRING(text@, line as nat, chr as nat),
            Token::INTEGER(text, line, chr) => TokenView::INTEGER(text@, line as nat, chr as nat),
            Token::FLOAT(text, line, chr) => TokenView::FLOAT(text@, line as nat, chr as nat),
            Token::IDENT(text, line, chr) => TokenView::IDENT(text@, line as nat, chr as nat),
        }
    }
}

impl TokenView {
    /// The numeral token for `text`: a float if `is_float`, else an integer.
    pub open spec fn number(text: Seq<char>, is_float: bool, line: nat, chr: nat) -> TokenView {
        if is_float {
            TokenView::FLOAT(text, line, chr)
        } else {
            TokenView::INTEGER(text, line, chr)
        }
    }
}

impl Token {
    /// The numeral token for `string`: a float if `is_float`, else an integer.
    pub fn number(string: String, is_float: bool, line: u32, chr: u32) -> (token: Token)
        ensures
            token@ == TokenView::number(string@, is_float, line as nat, chr as nat),
    {
        if is_float {
            Token::FLOAT(string, line, chr)
        } else {
            Token::INTEGER(string, line, chr)
        }
    }
}

/// Why no token could be produced. The last two fields of every variant are
/// the line and column, counted from 1, at which the failed token starts.
#[derive(PartialEq, Debug)]
pub enum LexError {
    /// The character cannot start any token.
    INVALID(char, u32, u32),
    /// A string literal was not closed on its line; holds the text read so far.
    UNTERMINATED(String, u32, u32),
    /// A symbol ran into a character it may not hold; holds the text before it.
    IDENT(String, u32, u32),
    /// A numeral without a dot ran into a foreign character; holds the text up
    /// to and including it.
    INTEGER(String, u32, u32),
    /// A numeral with a dot ran into a foreign character or a second dot;
    /// holds the text up to and including it.
    FLOAT(String, u32, u32),
    /// No characters are left.
    END(u32, u32),
}

/// What a [`LexError`] stands for.
pub enum LexErrorView {
    INVALID(char, nat, nat),
    UNTERMINATED(Seq<char>, nat, nat),
    IDENT(Seq<char>, nat, nat),
    INTEGER(Seq<char>, nat, nat),
    FLOAT(Seq<char>, nat, nat),
    END(nat, nat),
}

impl View for LexError {
    type V = LexErrorView;

    open spec fn view(&self) -> LexErrorView {
        match *self {
            LexError::INVALID(c, line, chr) => LexErrorView::INVALID(c, line as nat, chr as nat),
            LexError::UNTERMINATED(text, line, chr) => LexErrorView::UNTERMINATED(
                text@,
                line as nat,
                chr as nat,
            ),
            LexError::IDENT(text, line, chr) => LexErrorView::IDENT(text@, line as nat, chr as nat),
            LexError::INTEGER(text, line, chr) => LexErrorView::INTEGER(
                text@,
                line as nat,
                chr as nat,
            ),
            LexError::FLOAT(text, line, chr) => LexErrorView::FLOAT(text@, line as nat, chr as nat),
            LexError::END(line, chr) => LexErrorView::END(line as nat, chr as nat),
        }
    }
}

impl LexErrorView {
    /// The error for a malformed numeral: that of a float if `is_float`, else
    /// that of an integer.
    pub open spec fn number(text: Seq<char>, is_float: bool, line: nat, chr: nat) -> LexErrorView {
        if is_float {
            LexErrorView::FLOAT(text, line, chr)
        } else {
            LexErrorView::INTEGER(text, line, chr)
        }
    }
}

impl LexError {
    /// The error for a malformed numeral: that of a float if `is_float`, else
    /// that of an integer.
    pub fn number(string: String, is_float: bool, line: u32, chr: u32) -> (error: LexError)
        ensures
            error@ == LexErrorView::number(string@, is_float, line as nat, chr as nat),
    {
        if is_float {
            LexError::FLOAT(string, line, chr)
        } else {
            LexError::INTEGER(string, line, chr)
        }
    }
}

/// What the outcome of a scan stands for.
pub open spec fn outcome_view(r: Result<Token, LexError>) -> Result<TokenView, LexErrorView> {
    match r {
        Ok(token) => Ok(token@),
        Err(error) => Err(error@),
    }
}

} // verus!
