//! The classifier: from a text to its category.

use vstd::prelude::*;
use crate::charclass::{ascii_punctuation, is_ascii_punctuation, is_operator, operator};
use crate::std_specs::{unicode_alphabetic, unicode_numeric, unicode_whitespace};
use crate::token::TokenType;

verus! {

/// What the characters of a text have in common. This is all the classifier
/// reads of a text.
#[derive(Debug, Clone, Copy, PartialEq, Eq, Structural)]
pub struct TextProfile {
    /// The text has no characters.
    pub empty: bool,
    /// Every character is alphabetic.
    pub alphabetic: bool,
    /// The text is one tab character and nothing else.
    pub single_tab: bool,
    /// Every character is whitespace.
    pub whitespace: bool,
    /// Every character is an operator character.
    pub operators: bool,
    /// Every character is numeric.
    pub numeric: bool,
    /// Every character is alphabetic or numeric.
    pub alphanumeric: bool,
    /// Every character is ASCII punctuation.
    pub punctuation: bool,
}

/// The profile of a text.
pub open spec fn profile_of(text: Seq<char>) -> TextProfile {
    TextProfile {
        empty: text.len() == 0,
        alphabetic: text.all(|c: char| unicode_alphabetic(c)),
        single_tab: text.len() == 1 && text[0] == '\t',
        whitespace: text.all(|c: char| unicode_whitespace(c)),
        operators: text.all(|c: char| is_operator(c)),
        numeric: text.all(|c: char| unicode_numeric(c)),
        alphanumeric: text.all(|c: char| unicode_alphabetic(c) || unicode_numeric(c)),
        punctuation: text.all(|c: char| is_ascii_punctuation(c)),
    }
}

/// The category that a profile stands for. The classes overlap, so the order
/// of the tests matters: the first that holds decides.
pub open spec fn category_of(profile: TextProfile) -> TokenType {
    if profile.empty {
        TokenType::EndOfLine
    } else if profile.alphabetic {
        TokenType::Word
    } else if profile.single_tab {
        TokenType::Tab
    } else if profile.whitespace {
        TokenType::Whitespace
    } else if profile.operators {
        TokenType::Operator
    } else if profile.numeric {
        TokenType::Number
    } else if profile.alphanumeric {
        TokenType::Symbol
    } else if profile.punctuation {
        TokenType::Punctuation
    } else {
        TokenType::Unknown
    }
}

/// The category of a text.
pub open spec fn classify(text: Seq<char>) -> TokenType {
    category_of(profile_of(text))
}

/// Whether a predicate holds of the first `n + 1` characters is decided by
/// the first `n` and the one after them.
proof fn lemma_all_take_next(text: Seq<char>, n: int, pred: spec_fn(char) -> bool)
    requires
        0 <= n < text.len(),
    ensures
        text.take(n + 1).all(pred) == (text.take(n).all(pred) && pred(text[n])),
{
    let shorter = text.take(n);
    let longer = text.take(n + 1);
    if longer.all(pred) {
        assert(pred(longer[n]));
        assert forall|i: int| 0 <= i < shorter.len() implies #[trigger] pred(shorter[i]) by {
            assert(shorter[i] == longer[i]);
        }
    }
    if shorter.all(pred) && pred(text[n]) {
        assert forall|i: int| 0 <= i < longer.len() implies #[trigger] pred(longer[i]) by {
            if i < n {
                assert(longer[i] == shorter[i]);
            }
        }
    }
}

impl TextProfile {
    /// Reads the profile of `text` in one pass over its characters.
    pub fn of(text: &str) -> (profile: TextProfile)
        ensures
            profile == profile_of(text@),
    {
        let mut profile = TextProfile {
            empty: true,
            alphabetic: true,
            single_tab: false,
            whitespace: true,
            operators: true,
            numeric: true,
            alphanumeric: true,
            punctuation: true,
        };
        for c in it: text.chars()
            invariant
                it.seq() == text@,
                profile == profile_of(text@.take(it.index())),
        {
            proof {
                let n = it.index();
                lemma_all_take_next(text@, n, |c: char| unicode_alphabetic(c));
                lemma_all_take_next(text@, n, |c: char| unicode_whitespace(c));
                lemma_all_take_next(text@, n, |c: char| is_operator(c));
                lemma_all_take_next(text@, n, |c: char| unicode_numeric(c));
                lemma_all_take_next(
                    text@,
                    n,
                    |c: char| unicode_alphabetic(c) || unicode_numeric(c),
                );
                lemma_all_take_next(text@, n, |c: char| is_ascii_punctuation(c));
            }
            profile.single_tab = profile.empty && c == '\t';
            profile.empty = false;
            profile.alphabetic = profile.alphabetic && c.is_alphabetic();
            profile.whitespace = profile.whitespace && c.is_whitespace();
            profile.operators = profile.operators && operator(c);
            profile.numeric = profile.numeric && c.is_numeric();
            profile.alphanumeric = profile.alphanumeric && c.is_alphanumeric();
            profile.punctuation = profile.punctuation && ascii_punctuation(c);
        }
        assert(text@.take(text@.len() as int) == text@);
        profile
    }

    /// The category that this profile stands for.
    pub fn category(&self) -> (kind: TokenType)
        ensures
            kind == category_of(*self),
    {
        if self.empty {
            TokenType::EndOfLine
        } else if self.alphabetic {
            TokenType::Word
        } else if self.single_tab {
            TokenType::Tab
        } else if self.whitespace {
            TokenType::Whitespace
        } else if self.operators {
            TokenType::Operator
        } else if self.numeric {
            TokenType::Number
        } else if self.alphanumeric {
            TokenType::Symbol
        } else if self.punctuation {
            TokenType::Punctuation
        } else {
            TokenType::Unknown
        }
    }
}

/// Classifies a text.
pub fn classify_token(token: &str) -> (kind: TokenType)
    ensures
        kind == classify(token@),
{
    TextProfile::of(token).category()
}

/// A predicate holds of every character of a text of one character exactly
/// if it holds of that character.
proof fn lemma_all_of_one(c: char, pred: spec_fn(char) -> bool)
    ensures
        seq![c].all(pred) == pred(c),
{
    assert(seq![c][0] == c);
}

/// The profile of a text of one character, class by class.
pub proof fn lemma_profile_of_one(c: char)
    ensures
        profile_of(seq![c]) == (TextProfile {
            empty: false,
            alphabetic: unicode_alphabetic(c),
            single_tab: c == '\t',
            whitespace: unicode_whitespace(c),
            operators: is_operator(c),
            numeric: unicode_numeric(c),
            alphanumeric: unicode_alphabetic(c) || unicode_numeric(c),
            punctuation: is_ascii_punctuation(c),
        }),
{
    lemma_all_of_one(c, |c: char| unicode_alphabetic(c));
    lemma_all_of_one(c, |c: char| unicode_whitespace(c));
    lemma_all_of_one(c, |c: char| is_operator(c));
    lemma_all_of_one(c, |c: char| unicode_numeric(c));
    lemma_all_of_one(c, |c: char| unicode_alphabetic(c) || unicode_numeric(c));
    lemma_all_of_one(c, |c: char| is_ascii_punctuation(c));
}

/// The category of a text of one character. Such a text is never a symbol:
/// a character that is alphabetic or numeric is a word or a number first,
/// unless an earlier class has it. And among the ASCII punctuation, what the
/// Unicode tables count as neither letter, whitespace nor number is an
/// operator if it is an operator character, and punctuation if it is not.
pub proof fn lemma_classify_one(c: char)
    ensures
        classify(seq![c]) == if unicode_alphabetic(c) {
            TokenType::Word
        } else if c == '\t' {
            TokenType::Tab
        } else if unicode_whitespace(c) {
            TokenType::Whitespace
        } else if is_operator(c) {
            TokenType::Operator
        } else if unicode_numeric(c) {
            TokenType::Number
        } else if is_ascii_punctuation(c) {
            TokenType::Punctuation
        } else {
            TokenType::Unknown
        },
        classify(seq![c]) != TokenType::Symbol,
{
    lemma_profile_of_one(c);
}

} // verus!
