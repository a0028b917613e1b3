//! What holds of the tokens of every line.

use vstd::prelude::*;
use vstd::seq_lib::lemma_flatten_concat;
use crate::charclass::{is_ascii_punctuation, is_delimiter, is_plain};
use crate::classify::classify;
use crate::scan::{
    lemma_plain_prefix, lemma_plain_prefix_unique, lemma_tokens_of_run, line_end, lone_tokens,
    plain_prefix_len, tab, tokens_of,
};
use crate::token::{Token, TokenView};

verus! {

/// The delimiters that leave no trace among the tokens.
pub open spec fn is_dropped(c: char) -> bool {
    c == '=' || c == ' '
}

/// The texts of a sequence of tokens, in the order of the tokens.
pub open spec fn texts_of(tokens: Seq<TokenView>) -> Seq<Seq<char>> {
    tokens.map_values(|t: TokenView| t.text)
}

/// A line that holds nothing but delimiters has one end-of-line token for
/// each of its newlines, and no other token.
pub proof fn lemma_delimiters_only(line: Seq<char>)
    requires
        forall|i: int| 0 <= i < line.len() ==> is_delimiter(#[trigger] line[i]),
    ensures
        tokens_of(line) == line.filter(|c: char| c == '\n').map_values(|c: char| line_end()),
        tokens_of(line).len() == line.filter(|c: char| c == '\n').len(),
        forall|i: int|
            0 <= i < tokens_of(line).len() ==> #[trigger] tokens_of(line)[i] == line_end(),
    decreases line.len(),
{
    let newline = |c: char| c == '\n';
    if line.len() == 0 {
        reveal(Seq::filter);
    } else {
        let rest = line.drop_first();
        assert forall|i: int| 0 <= i < rest.len() implies is_delimiter(#[trigger] rest[i]) by {
            assert(rest[i] == line[i + 1]);
        }
        lemma_delimiters_only(rest);
        assert(line =~= seq![line[0]] + rest);
        rest.lemma_filter_prepend(line[0], newline);
        if line[0] == '\n' {
            assert(line.filter(newline).map_values(|c: char| line_end()) =~= seq![line_end()]
                + rest.filter(newline).map_values(|c: char| line_end()));
        }
    }
}

/// A filter keeps a sequence whole where every item passes it.
proof fn lemma_filter_keeps_all(text: Seq<char>, pred: spec_fn(char) -> bool)
    requires
        forall|i: int| 0 <= i < text.len() ==> pred(#[trigger] text[i]),
    ensures
        text.filter(pred) == text,
    decreases text.len(),
{
    reveal(Seq::filter);
    if text.len() > 0 {
        lemma_filter_keeps_all(text.drop_last(), pred);
    }
}

/// The texts of a line's tokens, put together in order, are the line
/// without its dropped delimiters: nothing else is lost, added or moved.
pub proof fn lemma_texts_rebuild_line(line: Seq<char>)
    ensures
        texts_of(tokens_of(line)).flatten() == line.filter(|c: char| !is_dropped(c)),
    decreases line.len(),
{
    let kept = |c: char| !is_dropped(c);
    if line.len() == 0 {
        reveal(Seq::filter);
    } else if is_plain(line[0]) {
        lemma_plain_prefix(line);
        let n = plain_prefix_len(line) as int;
        let run = line.take(n);
        let rest = line.skip(n);
        lemma_texts_rebuild_line(rest);
        assert(line =~= run + rest);
        Seq::filter_distributes_over_add(run, rest, kept);
        lemma_filter_keeps_all(run, kept);
        assert(texts_of(tokens_of(line)) =~= seq![run] + texts_of(tokens_of(rest)));
        lemma_flatten_concat(seq![run], texts_of(tokens_of(rest)));
        seq![run].lemma_flatten_one_element();
    } else {
        let c = line[0];
        let rest = line.drop_first();
        lemma_texts_rebuild_line(rest);
        assert(line =~= seq![c] + rest);
        rest.lemma_filter_prepend(c, kept);
        assert(texts_of(tokens_of(line)) =~= texts_of(lone_tokens(c)) + texts_of(
            tokens_of(rest),
        ));
        lemma_flatten_concat(texts_of(lone_tokens(c)), texts_of(tokens_of(rest)));
        if !is_dropped(c) {
            assert(texts_of(lone_tokens(c)) =~= seq![seq![c]]);
            seq![seq![c]].lemma_flatten_one_element();
        }
    }
}

/// A line can be tokenized in two pieces, as long as the cut does not part
/// two plain characters: the tokens of the whole are those of the first
/// piece followed by those of the second.
pub proof fn lemma_tokens_of_pieces(first: Seq<char>, second: Seq<char>)
    requires
        first.len() == 0 || second.len() == 0 || !is_plain(first.last()) || !is_plain(second[0]),
    ensures
        tokens_of(first + second) == tokens_of(first) + tokens_of(second),
    decreases first.len(),
{
    let line = first + second;
    if first.len() == 0 {
        assert(line =~= second);
    } else if !is_plain(first[0]) {
        let rest = first.drop_first();
        assert(line.drop_first() =~= rest + second);
        lemma_tokens_of_pieces(rest, second);
    } else {
        lemma_plain_prefix(first);
        let n = plain_prefix_len(first) as int;
        if n < first.len() {
            // The run that `first` begins with ends inside `first`.
            let rest = first.skip(n);
            assert forall|i: int| 0 <= i < n implies is_plain(#[trigger] line[i]) by {
                assert(line[i] == first[i]);
            }
            lemma_plain_prefix_unique(line, n);
            assert(line.take(n) =~= first.take(n));
            assert(line.skip(n) =~= rest + second);
            lemma_tokens_of_pieces(rest, second);
        } else {
            // All of `first` is one run, so `second` does not go on with it.
            lemma_tokens_of_run(first, second);
            lemma_tokens_of_run(first, Seq::empty());
            assert(first + Seq::<char>::empty() =~= first);
        }
    }
}

/// What a token of a line can be: the token of a newline, the token of a
/// tab, an ASCII punctuation character classified by itself, or a run of
/// plain characters classified as a whole.
pub open spec fn is_line_token(token: TokenView) -> bool {
    ||| token == line_end()
    ||| token == tab()
    ||| {
        &&& token.text.len() == 1
        &&& is_ascii_punctuation(token.text[0])
        &&& token.text[0] != '='
        &&& token.kind == classify(token.text)
    }
    ||| {
        &&& token.text.len() > 0
        &&& forall|i: int| 0 <= i < token.text.len() ==> is_plain(#[trigger] token.text[i])
        &&& token.kind == classify(token.text)
    }
}

/// Every token of a line is of one of these shapes. So no token is empty,
/// and none holds a space or an equals sign.
pub proof fn lemma_tokens_are_line_tokens(line: Seq<char>)
    ensures
        forall|i: int|
            0 <= i < tokens_of(line).len() ==> is_line_token(#[trigger] tokens_of(line)[i]),
        forall|i: int, j: int|
            0 <= i < tokens_of(line).len() && 0 <= j < tokens_of(line)[i].text.len()
                ==> !is_dropped(#[trigger] tokens_of(line)[i].text[j]),
        forall|i: int|
            0 <= i < tokens_of(line).len() ==> (#[trigger] tokens_of(line)[i]).text.len() > 0,
    decreases line.len(),
{
    if line.len() == 0 {
    } else if is_plain(line[0]) {
        lemma_plain_prefix(line);
        let n = plain_prefix_len(line) as int;
        let rest = line.skip(n);
        lemma_tokens_are_line_tokens(rest);
        assert forall|i: int| 0 <= i < tokens_of(line).len() implies is_line_token(
            #[trigger] tokens_of(line)[i],
        ) by {
            if i > 0 {
                assert(tokens_of(line)[i] == tokens_of(rest)[i - 1]);
            }
        }
    } else {
        let rest = line.drop_first();
        lemma_tokens_are_line_tokens(rest);
        let lone = lone_tokens(line[0]);
        assert forall|i: int| 0 <= i < tokens_of(line).len() implies is_line_token(
            #[trigger] tokens_of(line)[i],
        ) by {
            if i >= lone.len() {
                assert(tokens_of(line)[i] == tokens_of(rest)[i - lone.len()]);
            }
        }
    }
}

/// The tokens depend on the line alone: whatever `tokenize` returns for a
/// line, it returns the same for that line again.
pub proof fn lemma_tokenize_is_a_function(input: &str, first: Vec<Token>, second: Vec<Token>)
    requires
        first.deep_view() == tokens_of(input@),
        second.deep_view() == tokens_of(input@),
    ensures
        first.deep_view() == second.deep_view(),
        first.len() == second.len(),
        forall|i: int| 0 <= i < first.len() ==> #[trigger] first[i]@ == second[i]@,
{
    assert(first.deep_view().len() == first.len());
    assert(second.deep_view().len() == second.len());
    assert forall|i: int| 0 <= i < first.len() implies #[trigger] first[i]@ == second[i]@ by {
        assert(first.deep_view()[i] == first[i]@);
        assert(second.deep_view()[i] == second[i]@);
    }
}

} // verus!
