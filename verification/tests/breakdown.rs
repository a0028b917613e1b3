use tokenizer::{breakdown_text, gran_breakdown, tokenize, Token, TokenType};

fn token(text: &str, kind: TokenType) -> Token {
    Token { token: text.to_string(), token_type: kind }
}

#[test]
fn two_characters_are_joined() {
    assert_eq!(
        gran_breakdown(vec![token("ab", TokenType::Word)]),
        vec![("ab".to_string(), "\"a\" = \"b\"".to_string())]
    );
}

#[test]
fn one_character_has_no_separator() {
    assert_eq!(
        gran_breakdown(vec![token("+", TokenType::Operator)]),
        vec![("+".to_string(), "\"+\"".to_string())]
    );
    assert_eq!(breakdown_text("x"), "\"x\"");
}

#[test]
fn empty_text_has_an_empty_breakdown() {
    assert_eq!(breakdown_text(""), "");
    assert_eq!(
        gran_breakdown(vec![token("", TokenType::EndOfLine)]),
        vec![("".to_string(), "".to_string())]
    );
}

#[test]
fn no_tokens_no_pairs() {
    assert_eq!(gran_breakdown(vec![]), vec![]);
}

#[test]
fn longer_text() {
    assert_eq!(breakdown_text("abc"), "\"a\" = \"b\" = \"c\"");
    assert_eq!(breakdown_text("a1_"), "\"a\" = \"1\" = \"_\"");
}

#[test]
fn characters_are_not_escaped() {
    assert_eq!(breakdown_text("\""), "\"\"\"");
    assert_eq!(breakdown_text(" = "), "\" \" = \"=\" = \" \"");
    assert_eq!(breakdown_text("\t"), "\"\t\"");
    assert_eq!(breakdown_text("\u{e9}\u{4eac}"), "\"\u{e9}\" = \"\u{4eac}\"");
}

#[test]
fn breakdown_has_six_characters_for_each_but_the_last() {
    for text in ["a", "ab", "hello", "x1y2z3"] {
        let n = text.chars().count();
        assert_eq!(breakdown_text(text).chars().count(), 6 * n - 3);
    }
}

#[test]
fn pairs_keep_the_order_and_the_kind_plays_no_part() {
    let tokens = vec![
        token("ab", TokenType::Unknown),
        token("\n", TokenType::EndOfLine),
        token("7", TokenType::Word),
    ];
    assert_eq!(
        gran_breakdown(tokens),
        vec![
            ("ab".to_string(), "\"a\" = \"b\"".to_string()),
            ("\n".to_string(), "\"\n\"".to_string()),
            ("7".to_string(), "\"7\"".to_string()),
        ]
    );
}

#[test]
fn breakdown_of_a_tokenized_line() {
    assert_eq!(
        gran_breakdown(tokenize("if x<10")),
        vec![
            ("if".to_string(), "\"i\" = \"f\"".to_string()),
            ("x".to_string(), "\"x\"".to_string()),
            ("<".to_string(), "\"<\"".to_string()),
            ("10".to_string(), "\"1\" = \"0\"".to_string()),
        ]
    );
}
