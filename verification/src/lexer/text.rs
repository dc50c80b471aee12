//! What the tokenizer needs to know about characters and strings of the
//! standard library.

use vstd::prelude::*;

verus! {

/// Whether `c` has the Unicode property `White_Space`.
///
/// This is what `char::is_whitespace` answers; the set itself is left unnamed
/// here, so nothing is claimed about any particular character.
pub uninterp spec fn white_space(c: char) -> bool;

/// `char::is_whitespace` answers whether the character has the property
/// `White_Space`. Taken on trust.
pub assume_specification[ char::is_whitespace ](c: char) -> (b: bool)
    ensures
        b == white_space(c),
;

/// `String::push` appends the character to the end of the string. Taken on
/// trust.
pub assume_specification[ String::push ](s: &mut String, ch: char)
    ensures
        final(s)@ == old(s)@.push(ch),
;

/// `s` without its leading whitespace.
pub open spec fn trim_start(s: Seq<char>) -> Seq<char>
    decreases s.len(),
{
    if s.len() > 0 && white_space(s.first()) {
        trim_start(s.drop_first())
    } else {
        s
    }
}

/// `s` without its trailing whitespace.
pub open spec fn trim_end(s: Seq<char>) -> Seq<char>
    decreases s.len(),
{
    if s.len() > 0 && white_space(s.last()) {
        trim_end(s.drop_last())
    } else {
        s
    }
}

/// `s` without its leading and trailing whitespace.
pub open spec fn trimmed(s: Seq<char>) -> Seq<char> {
    trim_end(trim_start(s))
}

/// `str::trim` returns the slice with leading and trailing whitespace
/// removed, where whitespace is the property `White_Space`. Taken on trust.
pub assume_specification<'a>[ str::trim ](s: &'a str) -> (r: &'a str)
    ensures
        r@ == trimmed(s@),
;

/// A copy of `s` without its leading and trailing whitespace.
pub fn trim_text(s: &String) -> (r: String)
    ensures
        r@ == trimmed(s@),
{
    s.as_str().trim().to_string()
}

} // verus!
