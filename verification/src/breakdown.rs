//! The granular breakdown: each token's text, character by character.

use vstd::prelude::*;
use crate::token::{Token, TokenView};

verus! {

/// A character between double quotes.
pub open spec fn quoted(c: char) -> Seq<char> {
    seq!['"', c, '"']
}

/// What stands between two quoted characters.
pub open spec fn separator() -> Seq<char> {
    seq![' ', '=', ' ']
}

/// The characters of `text`, each between double quotes, joined by ` = `.
/// Nothing follows the last character, and an empty text gives an empty
/// breakdown.
pub open spec fn breakdown_of(text: Seq<char>) -> Seq<char>
    decreases text.len(),
{
    if text.len() == 0 {
        Seq::empty()
    } else if text.len() == 1 {
        quoted(text[0])
    } else {
        breakdown_of(text.drop_last()) + separator() + quoted(text.last())
    }
}

/// The character that stands at the place `at` in the breakdown of `text`:
/// the places go in sixes, a quoted character and then the separator.
pub open spec fn breakdown_char(text: Seq<char>, at: int) -> char {
    let place = at % 6;
    if place == 0 || place == 2 {
        '"'
    } else if place == 1 {
        text[at / 6]
    } else if place == 4 {
        '='
    } else {
        ' '
    }
}

/// The length of the breakdown of a text of `n` characters: six places for
/// each character but the last, which has no separator behind it.
pub open spec fn breakdown_len(n: nat) -> nat {
    if n == 0 {
        0
    } else {
        (6 * n - 3) as nat
    }
}

/// A breakdown place by place.
pub proof fn lemma_breakdown_layout(text: Seq<char>)
    ensures
        breakdown_of(text) == Seq::new(
            breakdown_len(text.len()),
            |at: int| breakdown_char(text, at),
        ),
    decreases text.len(),
{
    let laid_out = Seq::new(breakdown_len(text.len()), |at: int| breakdown_char(text, at));
    if text.len() > 1 {
        let front = text.drop_last();
        lemma_breakdown_layout(front);
        assert forall|at: int| 0 <= at < laid_out.len() implies breakdown_of(text)[at]
            == laid_out[at] by {
            if at < breakdown_len(front.len()) {
                assert(breakdown_char(front, at) == breakdown_char(text, at));
            }
        }
    }
    assert(breakdown_of(text) =~= laid_out);
}

/// A token's text beside its breakdown.
pub open spec fn breakdown_pair(token: TokenView) -> (Seq<char>, Seq<char>) {
    (token.text, breakdown_of(token.text))
}

/// Breaks a text down into its quoted characters.
pub fn breakdown_text(text: &str) -> (out: String)
    ensures
        out@ == breakdown_of(text@),
{
    let mut out = String::new();
    let mut first = true;
    for c in it: text.chars()
        invariant
            it.seq() == text@,
            first == (it.index() == 0),
            out@ == breakdown_of(text@.take(it.index())),
    {
        let ghost n = it.index();
        if !first {
            out.push(' ');
            out.push('=');
            out.push(' ');
        }
        out.push('"');
        out.push(c);
        out.push('"');
        first = false;
        assert(text@.take(n + 1).drop_last() =~= text@.take(n));
    }
    assert(text@.take(text@.len() as int) =~= text@);
    out
}

/// Pairs the text of each token with its breakdown, in the order of the
/// tokens.
pub fn gran_breakdown(tokens: Vec<Token>) -> (pairs: Vec<(String, String)>)
    ensures
        pairs.deep_view() == tokens.deep_view().map_values(|t: TokenView| breakdown_pair(t)),
{
    let mut pairs: Vec<(String, String)> = Vec::new();
    let mut i: usize = 0;
    while i < tokens.len()
        invariant
            i <= tokens.len(),
            pairs.deep_view() == tokens.deep_view().take(i as int).map_values(
                |t: TokenView| breakdown_pair(t),
            ),
        decreases tokens.len() - i,
    {
        let ghost before = pairs.deep_view();
        let text = tokens[i].token.clone();
        let parts = breakdown_text(text.as_str());
        pairs.push((text, parts));
        i += 1;
        proof {
            let token = tokens.deep_view()[i - 1];
            assert(pairs.deep_view() =~= before.push(breakdown_pair(token)));
            assert(tokens.deep_view().take(i as int) =~= tokens.deep_view().take(i - 1).push(
                token,
            ));
            assert(pairs.deep_view() =~= tokens.deep_view().take(i as int).map_values(
                |t: TokenView| breakdown_pair(t),
            ));
        }
    }
    pairs
}

} // verus!
