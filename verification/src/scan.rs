//! The tokenizer: from a line of text to its tokens.

use vstd::prelude::*;
use crate::charclass::{ascii_punctuation, delimiter, is_delimiter, is_plain};
use crate::classify::{classify, classify_token};
use crate::token::{Token, TokenType, TokenView};

verus! {

/// The token that a text makes when it is classified as a whole.
pub open spec fn token_of(text: Seq<char>) -> TokenView {
    TokenView { text, kind: classify(text) }
}

/// How many plain characters `line` begins with.
pub open spec fn plain_prefix_len(line: Seq<char>) -> nat
    decreases line.len(),
{
    if line.len() > 0 && is_plain(line[0]) {
        1 + plain_prefix_len(line.drop_first())
    } else {
        0
    }
}

/// The token that a newline makes.
pub open spec fn line_end() -> TokenView {
    TokenView { text: seq!['\n'], kind: TokenType::EndOfLine }
}

/// The token that a tab makes.
pub open spec fn tab() -> TokenView {
    TokenView { text: seq!['\t'], kind: TokenType::Tab }
}

/// What a character that is not plain contributes on its own: a newline
/// makes an end-of-line token, the other delimiters make nothing, a tab
/// makes a tab token, and ASCII punctuation is classified by itself.
pub open spec fn lone_tokens(c: char) -> Seq<TokenView> {
    if c == '\n' {
        seq![line_end()]
    } else if is_delimiter(c) {
        Seq::empty()
    } else if c == '\t' {
        seq![tab()]
    } else {
        seq![token_of(seq![c])]
    }
}

/// The tokens of a line. Each longest run of plain characters is one token,
/// classified as a whole; every other character contributes `lone_tokens`.
pub open spec fn tokens_of(line: Seq<char>) -> Seq<TokenView>
    decreases line.len(),
    via tokens_of_terminates
{
    if line.len() == 0 {
        Seq::empty()
    } else if is_plain(line[0]) {
        let n = plain_prefix_len(line) as int;
        seq![token_of(line.take(n))] + tokens_of(line.skip(n))
    } else {
        lone_tokens(line[0]) + tokens_of(line.drop_first())
    }
}

#[via_fn]
proof fn tokens_of_terminates(line: Seq<char>) {
    lemma_plain_prefix(line);
}

/// The plain prefix of a line lies within the line, holds only plain
/// characters, and ends where the line ends or a character is not plain.
pub proof fn lemma_plain_prefix(line: Seq<char>)
    ensures
        plain_prefix_len(line) <= line.len(),
        forall|i: int| 0 <= i < plain_prefix_len(line) ==> is_plain(#[trigger] line[i]),
        plain_prefix_len(line) < line.len() ==> !is_plain(line[plain_prefix_len(line) as int]),
        line.len() > 0 && is_plain(line[0]) ==> plain_prefix_len(line) > 0,
    decreases line.len(),
{
    if line.len() > 0 && is_plain(line[0]) {
        let rest = line.drop_first();
        lemma_plain_prefix(rest);
        assert forall|i: int| 0 <= i < plain_prefix_len(line) implies is_plain(
            #[trigger] line[i],
        ) by {
            if i > 0 {
                assert(line[i] == rest[i - 1]);
            }
        }
    }
}

/// A prefix that holds only plain characters, and that ends where the line
/// ends or a character is not plain, is the plain prefix.
pub proof fn lemma_plain_prefix_unique(line: Seq<char>, n: int)
    requires
        0 <= n <= line.len(),
        forall|i: int| 0 <= i < n ==> is_plain(#[trigger] line[i]),
        n < line.len() ==> !is_plain(line[n]),
    ensures
        plain_prefix_len(line) == n,
    decreases n,
{
    if n > 0 {
        lemma_plain_prefix_unique(line.drop_first(), n - 1);
    }
}

/// A run of plain characters that is followed by the end of the line, or by
/// a character that is not plain, is one token.
pub proof fn lemma_tokens_of_run(run: Seq<char>, rest: Seq<char>)
    requires
        run.len() > 0,
        forall|i: int| 0 <= i < run.len() ==> is_plain(#[trigger] run[i]),
        rest.len() > 0 ==> !is_plain(rest[0]),
    ensures
        tokens_of(run + rest) == seq![token_of(run)] + tokens_of(rest),
{
    let line = run + rest;
    lemma_plain_prefix_unique(line, run.len() as int);
    assert(line.take(run.len() as int) =~= run);
    assert(line.skip(run.len() as int) =~= rest);
}

/// A string that holds `c` and nothing else.
fn single(c: char) -> (text: String)
    ensures
        text@ == seq![c],
{
    let mut text = String::new();
    text.push(c);
    text
}

/// Ends the token that is being built, if there is one: its text is
/// classified and appended to `tokens`, and `pending` is left empty.
fn flush(tokens: &mut Vec<Token>, pending: &mut String)
    ensures
        final(pending)@.len() == 0,
        final(tokens).deep_view() == if old(pending)@.len() > 0 {
            old(tokens).deep_view().push(token_of(old(pending)@))
        } else {
            old(tokens).deep_view()
        },
{
    if !pending.as_str().is_empty() {
        let mut text = String::new();
        std::mem::swap(pending, &mut text);
        let kind = classify_token(text.as_str());
        tokens.push(Token { token: text, token_type: kind });
    }
}

/// Splits a line into its tokens, in one pass from left to right.
pub fn tokenize(input: &str) -> (tokens: Vec<Token>)
    ensures
        tokens.deep_view() == tokens_of(input@),
{
    let mut tokens: Vec<Token> = Vec::new();
    let mut current_token = String::new();
    assert(current_token@ + input@.skip(0) =~= input@);
    for c in it: input.chars()
        invariant
            it.seq() == input@,
            forall|i: int| 0 <= i < current_token@.len() ==> is_plain(#[trigger] current_token@[i]),
            tokens.deep_view() + tokens_of(current_token@ + input@.skip(it.index()))
                == tokens_of(input@),
    {
        let ghost before = tokens.deep_view();
        let ghost run = current_token@;
        let ghost rest = input@.skip(it.index());
        let ghost after = input@.skip(it.index() + 1);
        proof {
            assert(rest.drop_first() =~= after);
            if is_plain(c) {
                // The run goes on: the line that is left to tokenize is the same.
                assert(run.push(c) + after =~= run + rest);
            } else if run.len() > 0 {
                // The run ends here, and is one token.
                lemma_tokens_of_run(run, rest);
            }
        }
        if delimiter(c) {
            flush(&mut tokens, &mut current_token);
            if c == '\n' {
                tokens.push(Token { token: single(c), token_type: TokenType::EndOfLine });
            }
        } else if c == '\t' {
            flush(&mut tokens, &mut current_token);
            tokens.push(Token { token: single(c), token_type: TokenType::Tab });
        } else if ascii_punctuation(c) {
            flush(&mut tokens, &mut current_token);
            let text = single(c);
            let kind = classify_token(text.as_str());
            tokens.push(Token { token: text, token_type: kind });
        } else {
            current_token.push(c);
        }
        proof {
            if !is_plain(c) {
                let flushed = if run.len() > 0 {
                    before.push(token_of(run))
                } else {
                    before
                };
                assert(before + tokens_of(run + rest) =~= flushed + lone_tokens(c) + tokens_of(
                    after,
                ));
            }
        }
    }
    proof {
        // A run that reaches the end of the line is one token.
        let run = current_token@;
        if run.len() > 0 {
            lemma_tokens_of_run(run, input@.skip(input@.len() as int));
        }
    }
    flush(&mut tokens, &mut current_token);
    tokens
}

} // verus!
