//! Tokens and their categories.

use vstd::prelude::*;

verus! {

/// The category of a token. Every token has exactly one. Where more than
/// one of the descriptions below fits a text, the classifier decides by the
/// order of its tests.
#[derive(Debug, Clone, Copy, PartialEq, Eq, Hash, Structural)]
pub enum TokenType {
    /// Alphabetic characters only.
    Word,
    /// Whitespace only, but not a single tab.
    Whitespace,
    /// A single tab.
    Tab,
    /// Operator characters only.
    Operator,
    /// Numeric characters only.
    Number,
    /// ASCII punctuation only, and not operator characters alone.
    Punctuation,
    /// Alphabetic and numeric characters together.
    Symbol,
    /// A newline in a line, or a text with no characters.
    EndOfLine,
    /// None of the above.
    Unknown,
}

/// A piece of the input line together with its category.
#[derive(Debug, PartialEq, Eq)]
pub struct Token {
    /// The text of the token.
    pub token: String,
    /// The category of the token.
    pub token_type: TokenType,
}

/// A token as contracts speak of it: its text as a sequence of characters,
/// and its category.
pub struct TokenView {
    pub text: Seq<char>,
    pub kind: TokenType,
}

impl Clone for Token {
    fn clone(&self) -> (copy: Token)
        ensures
            copy == *self,
    {
        Token { token: self.token.clone(), token_type: self.token_type }
    }
}

impl View for Token {
    type V = TokenView;

    open spec fn view(&self) -> TokenView {
        TokenView { text: self.token@, kind: self.token_type }
    }
}

impl DeepView for Token {
    type V = TokenView;

    open spec fn deep_view(&self) -> TokenView {
        self@
    }
}

} // verus!
