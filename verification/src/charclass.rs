//! The character classes that are this crate's own: each is a short list of
//! ASCII characters.

use vstd::prelude::*;

verus! {

/// The characters that end a token and are themselves consumed.
pub open spec fn is_delimiter(c: char) -> bool {
    c == '=' || c == ' ' || c == '\n'
}

/// The characters that count as operators.
pub open spec fn is_operator(c: char) -> bool {
    c == '+' || c == '-' || c == '*' || c == '/' || c == '=' || c == '<' || c == '>'
}

/// ASCII punctuation: the printable ASCII characters that are neither
/// letters, digits nor the space.
pub open spec fn is_ascii_punctuation(c: char) -> bool {
    ||| '!' <= c <= '/'
    ||| ':' <= c <= '@'
    ||| '[' <= c <= '`'
    ||| '{' <= c <= '~'
}

/// The characters that tokens are built from one by one: every character
/// that the tokenizer does not handle on its own.
pub open spec fn is_plain(c: char) -> bool {
    !is_delimiter(c) && c != '\t' && !is_ascii_punctuation(c)
}

/// Tells whether `c` is a delimiter.
pub fn delimiter(c: char) -> (b: bool)
    ensures
        b == is_delimiter(c),
{
    c == '=' || c == ' ' || c == '\n'
}

/// Tells whether `c` is an operator character.
pub fn operator(c: char) -> (b: bool)
    ensures
        b == is_operator(c),
{
    c == '+' || c == '-' || c == '*' || c == '/' || c == '=' || c == '<' || c == '>'
}

/// Tells whether `c` is ASCII punctuation.
pub fn ascii_punctuation(c: char) -> (b: bool)
    ensures
        b == is_ascii_punctuation(c),
{
    ('!' <= c && c <= '/') || (':' <= c && c <= '@') || ('[' <= c && c <= '`') || ('{' <= c
        && c <= '~')
}

} // verus!
