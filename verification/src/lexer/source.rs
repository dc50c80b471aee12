//! What a character source stands for, and what it means to read from it.

use super::syntax::advance;
use super::syntax::position_after;
use super::syntax::Position;
use super::syntax::Scan;
use super::token::outcome_view;
use super::token::LexError;
use super::token::Token;
use vstd::prelude::*;

verus! {

/// The character that `s` starts with, if it has one.
pub open spec fn lookahead(s: Seq<char>) -> Option<char> {
    if s.len() > 0 {
        Some(s[0])
    } else {
        None
    }
}

/// What a character source stands for.
pub struct Source {
    /// The characters that it has yet to hand out.
    pub remaining: Seq<char>,
    /// The line and column of the next character.
    pub position: Position,
}

/// Whether a counter of 32 bits can follow the step from `at` past `c`.
pub open spec fn can_advance(at: Position, c: char) -> bool {
    if c == '\n' {
        at.line < u32::MAX
    } else {
        at.chr < u32::MAX
    }
}

/// Whether counters of 32 bits can follow the reading of all of `s` from
/// `at`: no line of it is too long, and there are not too many lines.
pub open spec fn fits(s: Seq<char>, at: Position) -> bool
    decreases s.len(),
{
    s.len() > 0 ==> can_advance(at, s[0]) && fits(s.skip(1), advance(at, s[0]))
}

/// Whether the line and column counters of a source can follow it through all
/// the characters it has left.
pub open spec fn in_range(source: Source) -> bool {
    fits(source.remaining, source.position)
}

/// Whether `after` is `before` having read the next `n` characters: they are
/// gone from what remains, and the position has followed them.
pub open spec fn has_read(before: Source, after: Source, n: nat) -> bool {
    &&& n <= before.remaining.len()
    &&& after.remaining == before.remaining.skip(n as int)
    &&& after.position == position_after(before.remaining.take(n as int), before.position)
}

/// Whether a scanner that started at `before` and stopped at `after` with the
/// outcome `r` did what `scan` says: it gave that result and read that many
/// characters.
pub open spec fn scanned(
    before: Source,
    after: Source,
    r: Result<Token, LexError>,
    scan: Scan,
) -> bool {
    &&& outcome_view(r) == scan.result
    &&& has_read(before, after, scan.used)
}

/// Reading `a` and then `b` leads to the same place as reading both at once.
pub proof fn lemma_position_after_concat(a: Seq<char>, b: Seq<char>, at: Position)
    ensures
        position_after(a + b, at) == position_after(b, position_after(a, at)),
    decreases b.len(),
{
    if b.len() > 0 {
        lemma_position_after_concat(a, b.drop_last(), at);
        assert((a + b).drop_last() =~= a + b.drop_last());
    }
}

/// Text that is short enough fits, whatever it holds: it cannot move the line
/// or the column further than by its length.
pub proof fn lemma_short_text_fits(s: Seq<char>, at: Position)
    requires
        at.line + s.len() <= u32::MAX,
        at.chr + s.len() <= u32::MAX,
    ensures
        fits(s, at),
    decreases s.len(),
{
    if s.len() > 0 {
        lemma_short_text_fits(s.skip(1), advance(at, s[0]));
    }
}

/// Nothing read leaves everything as it was.
pub proof fn lemma_has_read_nothing(source: Source)
    ensures
        has_read(source, source, 0),
{
    assert(source.remaining.skip(0) =~= source.remaining);
}

/// Reading `n` characters and then `m` more is reading `n + m`.
pub proof fn lemma_has_read_more(start: Source, middle: Source, end: Source, n: nat, m: nat)
    requires
        has_read(start, middle, n),
        has_read(middle, end, m),
    ensures
        has_read(start, end, n + m),
{
    let s = start.remaining;
    assert(s.skip(n as int).skip(m as int) =~= s.skip((n + m) as int));
    assert(s.take((n + m) as int) =~= s.take(n as int) + s.skip(n as int).take(m as int));
    lemma_position_after_concat(s.take(n as int), s.skip(n as int).take(m as int), start.position);
}

/// One step of [`Lexer::get`] that found a character is reading one
/// character, and keeps the counters in range.
pub proof fn lemma_has_read_one(before: Source, after: Source)
    requires
        before.remaining.len() > 0,
        after.remaining == before.remaining.skip(1),
        after.position == advance(before.position, before.remaining[0]),
    ensures
        has_read(before, after, 1),
        in_range(before) ==> in_range(after),
{
    let s = before.remaining;
    assert(position_after(s.take(1).drop_last(), before.position) == before.position);
}

} // verus!
