//! What holds of the syntax whatever the text.

use super::syntax::advance;
use super::syntax::has_dot;
use super::syntax::is_disallowed;
use super::syntax::numeral_run;
use super::syntax::position_after;
use super::syntax::scan_ident;
use super::syntax::scan_next;
use super::syntax::scan_number;
use super::syntax::scan_token;
use super::syntax::starts_symbol;
use super::syntax::symbol_run;
use super::syntax::whitespace_run;
use super::syntax::Position;
use super::syntax::Scan;
use super::text::trim_end;
use super::text::trim_start;
use super::text::trimmed;
use super::text::white_space;
use super::token::LexErrorView;
use super::token::TokenView;
use vstd::prelude::*;

verus! {

/// The place at which a token or an error says it starts.
pub open spec fn start_of(result: Result<TokenView, LexErrorView>) -> Position {
    match result {
        Ok(TokenView::LPAR(line, chr)) => Position { line, chr },
        Ok(TokenView::RPAR(line, chr)) => Position { line, chr },
        Ok(TokenView::COMMENT(_, line, chr)) => Position { line, chr },
        Ok(TokenView::STRING(_, line, chr)) => Position { line, chr },
        Ok(TokenView::INTEGER(_, line, chr)) => Position { line, chr },
        Ok(TokenView::FLOAT(_, line, chr)) => Position { line, chr },
        Ok(TokenView::IDENT(_, line, chr)) => Position { line, chr },
        Err(LexErrorView::INVALID(_, line, chr)) => Position { line, chr },
        Err(LexErrorView::UNTERMINATED(_, line, chr)) => Position { line, chr },
        Err(LexErrorView::IDENT(_, line, chr)) => Position { line, chr },
        Err(LexErrorView::INTEGER(_, line, chr)) => Position { line, chr },
        Err(LexErrorView::FLOAT(_, line, chr)) => Position { line, chr },
        Err(LexErrorView::END(line, chr)) => Position { line, chr },
    }
}

/// The number of newlines in `s`.
pub open spec fn newlines(s: Seq<char>) -> nat
    decreases s.len(),
{
    if s.len() == 0 {
        0
    } else {
        newlines(s.drop_last()) + if s.last() == '\n' { 1nat } else { 0nat }
    }
}

/// The number of dots in `s`.
pub open spec fn dots(s: Seq<char>) -> nat
    decreases s.len(),
{
    if s.len() == 0 {
        0
    } else {
        dots(s.drop_last()) + if s.last() == '.' { 1nat } else { 0nat }
    }
}

/// Text that is whitespace from start to end holds no token: the next token
/// is the end of the input, reported at the place where the text ends, and
/// all of the text is read. Where the text holds no newline, that place is
/// on the line where reading began, as many columns on as the text is long.
pub proof fn law_whitespace_only(s: Seq<char>, at: Position)
    requires
        forall|i: int| 0 <= i < s.len() ==> white_space(#[trigger] s[i]),
    ensures
        scan_next(s, at) == (Scan {
            result: Err(LexErrorView::END(position_after(s, at).line, position_after(s, at).chr)),
            used: s.len(),
        }),
        (forall|i: int| 0 <= i < s.len() ==> #[trigger] s[i] != '\n') ==> scan_next(s, at).result
            == Err::<TokenView, LexErrorView>(LexErrorView::END(at.line, at.chr + s.len())),
{
    lemma_whitespace_run_all(s);
    assert(s.take(s.len() as int) =~= s);
    if forall|i: int| 0 <= i < s.len() ==> #[trigger] s[i] != '\n' {
        law_position_on_one_line(s, at);
    }
}

/// Text without a newline moves the position along its line, one column for
/// each character.
pub proof fn law_position_on_one_line(s: Seq<char>, at: Position)
    requires
        forall|i: int| 0 <= i < s.len() ==> #[trigger] s[i] != '\n',
    ensures
        position_after(s, at) == (Position { line: at.line, chr: at.chr + s.len() }),
    decreases s.len(),
{
    if s.len() > 0 {
        law_position_on_one_line(s.drop_last(), at);
    }
}

/// Every newline read moves the position to column 1 of the next line; every
/// other character moves it one column on.
pub proof fn law_position_after_push(s: Seq<char>, c: char, at: Position)
    ensures
        position_after(s.push(c), at) == advance(position_after(s, at), c),
        c == '\n' ==> position_after(s.push(c), at) == (Position {
            line: position_after(s, at).line + 1,
            chr: 1,
        }),
        c != '\n' ==> position_after(s.push(c), at) == (Position {
            line: position_after(s, at).line,
            chr: position_after(s, at).chr + 1,
        }),
{
    assert(s.push(c).drop_last() =~= s);
}

/// The line reached is the line started from plus the number of newlines
/// read.
pub proof fn law_position_counts_newlines(s: Seq<char>, at: Position)
    ensures
        position_after(s, at).line == at.line + newlines(s),
    decreases s.len(),
{
    if s.len() > 0 {
        law_position_counts_newlines(s.drop_last(), at);
    }
}

/// A token, or an error, is reported at the place of its own first character:
/// where the whitespace in front of it ends, not where reading began.
pub proof fn law_token_starts_behind_whitespace(s: Seq<char>, at: Position)
    ensures
        start_of(scan_next(s, at).result) == position_after(
            s.take(whitespace_run(s) as int),
            at,
        ),
{
}

/// A symbol that runs into a disallowed character is an error that carries
/// exactly the text in front of that character, whatever follows it.
pub proof fn law_ident_rejects_disallowed(pre: Seq<char>, c: char, rest: Seq<char>, at: Position)
    requires
        forall|i: int|
            0 <= i < pre.len() ==> !is_disallowed(#[trigger] pre[i]) && !white_space(pre[i]),
        is_disallowed(c),
    ensures
        scan_ident(pre + seq![c] + rest, at) == (Scan {
            result: Err(LexErrorView::IDENT(pre, at.line, at.chr)),
            used: pre.len() + 1,
        }),
{
    let s = pre + seq![c] + rest;
    lemma_symbol_run_prefix(pre, seq![c] + rest);
    assert(s =~= pre + (seq![c] + rest));
    assert(s.take(pre.len() as int) =~= pre);
}

/// The same holds of the next token, when the text starts with a character
/// that a symbol may start with.
pub proof fn law_next_rejects_disallowed(pre: Seq<char>, c: char, rest: Seq<char>, at: Position)
    requires
        forall|i: int|
            0 <= i < pre.len() ==> !is_disallowed(#[trigger] pre[i]) && !white_space(pre[i]),
        is_disallowed(c),
        starts_symbol((pre + seq![c])[0]),
        !white_space((pre + seq![c])[0]),
    ensures
        scan_next(pre + seq![c] + rest, at) == (Scan {
            result: Err(LexErrorView::IDENT(pre, at.line, at.chr)),
            used: pre.len() + 1,
        }),
{
    let s = pre + seq![c] + rest;
    law_ident_rejects_disallowed(pre, c, rest, at);
    assert(s.skip(0) =~= s);
}

/// The text of an integer holds no dot, and the text of a float at most one:
/// exactly one, given that a dot is not whitespace and so is not trimmed.
pub proof fn law_numeral_dots(s: Seq<char>, at: Position)
    ensures
        scan_number(s, at).result matches Ok(TokenView::INTEGER(text, _, _)) ==> dots(text) == 0,
        scan_number(s, at).result matches Ok(TokenView::FLOAT(text, _, _)) ==> {
            &&& dots(text) <= 1
            &&& !white_space('.') ==> dots(text) == 1
        },
{
    let sign: int = if s.len() > 0 && s[0] == '-' { 1 } else { 0 };
    let end: int = sign + numeral_run(s.skip(sign), false);
    lemma_numeral_run_dots(s.skip(sign), false);
    let run = s.subrange(sign, end);
    assert(s.skip(sign).take(end - sign) =~= run);
    lemma_dots_found(run);
    assert(dots(s.take(sign)) == 0) by {
        if sign == 1 {
            assert(s.take(1) =~= seq![s[0]]);
            lemma_dots_one(s[0]);
        }
    }
    lemma_dots_concat(s.take(sign), run);
    let lexeme = if end == s.len() { s } else { s.take(end + 1) };
    if end == s.len() {
        assert(s =~= s.take(sign) + run);
    } else {
        assert(lexeme.drop_last() =~= s.take(sign) + run);
    }
    lemma_trimmed_dots(lexeme);
}

/// A single character has one dot if it is one, and none if it is not.
proof fn lemma_dots_one(c: char)
    ensures
        dots(seq![c]) == if c == '.' { 1nat } else { 0nat },
{
    assert(dots(seq![c].drop_last()) == 0);
}

/// The dots of two texts put together are those of the one and of the other.
proof fn lemma_dots_concat(a: Seq<char>, b: Seq<char>)
    ensures
        dots(a + b) == dots(a) + dots(b),
    decreases b.len(),
{
    if b.len() > 0 {
        lemma_dots_concat(a, b.drop_last());
        assert((a + b).drop_last() =~= a + b.drop_last());
    }
}

/// A text holds a dot exactly if it has dots to count.
proof fn lemma_dots_found(s: Seq<char>)
    ensures
        has_dot(s) <==> dots(s) > 0,
    decreases s.len(),
{
    if s.len() > 0 {
        lemma_dots_found(s.drop_last());
        if has_dot(s) {
            let i = choose|i: int| 0 <= i < s.len() && s[i] == '.';
            if i < s.len() - 1 {
                assert(s.drop_last()[i] == '.');
            }
        }
    }
}

/// The run of a numeral holds at most one dot, and none if one came before.
proof fn lemma_numeral_run_dots(s: Seq<char>, seen_dot: bool)
    ensures
        numeral_run(s, seen_dot) <= s.len(),
        dots(s.take(numeral_run(s, seen_dot) as int)) <= if seen_dot { 0nat } else { 1nat },
    decreases s.len(),
{
    let n = numeral_run(s, seen_dot);
    if n > 0 {
        let dot = s.first() == '.';
        let rest = s.drop_first();
        lemma_numeral_run_dots(rest, seen_dot || dot);
        let m = numeral_run(rest, seen_dot || dot);
        assert(s.take(n as int) =~= seq![s.first()] + rest.take(m as int));
        lemma_dots_concat(seq![s.first()], rest.take(m as int));
        lemma_dots_one(s.first());
    }
}

/// Trimming takes no dot away unless a dot is whitespace, and adds none.
proof fn lemma_trimmed_dots(s: Seq<char>)
    ensures
        dots(trimmed(s)) <= dots(s),
        !white_space('.') ==> dots(trimmed(s)) == dots(s),
{
    lemma_trim_start_dots(s);
    lemma_trim_end_dots(trim_start(s));
}

/// The same of the whitespace in front.
proof fn lemma_trim_start_dots(s: Seq<char>)
    ensures
        dots(trim_start(s)) <= dots(s),
        !white_space('.') ==> dots(trim_start(s)) == dots(s),
    decreases s.len(),
{
    if s.len() > 0 && white_space(s.first()) {
        lemma_trim_start_dots(s.drop_first());
        assert(s =~= seq![s.first()] + s.drop_first());
        lemma_dots_concat(seq![s.first()], s.drop_first());
        lemma_dots_one(s.first());
    }
}

/// The same of the whitespace behind.
proof fn lemma_trim_end_dots(s: Seq<char>)
    ensures
        dots(trim_end(s)) <= dots(s),
        !white_space('.') ==> dots(trim_end(s)) == dots(s),
    decreases s.len(),
{
    if s.len() > 0 && white_space(s.last()) {
        lemma_trim_end_dots(s.drop_last());
    }
}

/// Text that is whitespace throughout is one run of whitespace.
proof fn lemma_whitespace_run_all(s: Seq<char>)
    requires
        forall|i: int| 0 <= i < s.len() ==> white_space(#[trigger] s[i]),
    ensures
        whitespace_run(s) == s.len(),
    decreases s.len(),
{
    if s.len() > 0 {
        lemma_whitespace_run_all(s.drop_first());
    }
}

/// A run of symbol characters in front of a character that is not one is the
/// whole run of symbol characters.
proof fn lemma_symbol_run_prefix(pre: Seq<char>, rest: Seq<char>)
    requires
        forall|i: int|
            0 <= i < pre.len() ==> !is_disallowed(#[trigger] pre[i]) && !white_space(pre[i]),
        rest.len() > 0,
        is_disallowed(rest[0]) || white_space(rest[0]),
    ensures
        symbol_run(pre + rest) == pre.len(),
    decreases pre.len(),
{
    if pre.len() > 0 {
        lemma_symbol_run_prefix(pre.drop_first(), rest);
        assert((pre + rest).drop_first() =~= pre.drop_first() + rest);
    }
}

} // verus!
