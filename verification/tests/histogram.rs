use tokenizer::{count_token_types, tokenize, Histogram, Token, TokenType};

fn token(text: &str, kind: TokenType) -> Token {
    Token { token: text.to_string(), token_type: kind }
}

const ALL: [TokenType; 9] = [
    TokenType::Word,
    TokenType::Whitespace,
    TokenType::Tab,
    TokenType::Operator,
    TokenType::Number,
    TokenType::Punctuation,
    TokenType::Symbol,
    TokenType::EndOfLine,
    TokenType::Unknown,
];

#[test]
fn no_tokens_no_entries() {
    let hist = count_token_types(&[]);
    assert_eq!(hist.entries(), vec![]);
    for kind in ALL {
        assert_eq!(hist.get(kind), None);
    }
}

#[test]
fn one_token_one_entry() {
    let hist = count_token_types(&[token("ab", TokenType::Word)]);
    assert_eq!(hist.entries(), vec![(TokenType::Word, 1)]);
    assert_eq!(hist.get(TokenType::Word), Some(1));
    assert_eq!(hist.get(TokenType::Number), None);
}

#[test]
fn counts_go_by_category_and_not_by_text() {
    let tokens = vec![
        token("a", TokenType::Word),
        token("a", TokenType::Number),
        token("b", TokenType::Word),
        token("", TokenType::Unknown),
        token("a", TokenType::Word),
    ];
    let hist = count_token_types(&tokens);
    assert_eq!(hist.get(TokenType::Word), Some(3));
    assert_eq!(hist.get(TokenType::Number), Some(1));
    assert_eq!(hist.get(TokenType::Unknown), Some(1));
    assert_eq!(hist.get(TokenType::Tab), None);
    assert_eq!(
        hist.entries(),
        vec![(TokenType::Word, 3), (TokenType::Number, 1), (TokenType::Unknown, 1)]
    );
}

#[test]
fn entries_come_in_the_order_of_the_categories() {
    let tokens: Vec<Token> = ALL.iter().rev().map(|kind| token("x", *kind)).collect();
    let hist = count_token_types(&tokens);
    let expected: Vec<(TokenType, usize)> = ALL.iter().map(|kind| (*kind, 1)).collect();
    assert_eq!(hist.entries(), expected);
}

#[test]
fn counts_of_a_tokenized_line() {
    let tokens = tokenize("a1 = b + 2*c;\tdone\n");
    let hist = count_token_types(&tokens);
    assert_eq!(
        hist.entries(),
        vec![
            (TokenType::Word, 3),
            (TokenType::Tab, 1),
            (TokenType::Operator, 2),
            (TokenType::Number, 1),
            (TokenType::Punctuation, 1),
            (TokenType::Symbol, 1),
            (TokenType::EndOfLine, 1),
        ]
    );
}

#[test]
fn counts_add_up_to_the_number_of_tokens() {
    for line in ["", "abc", "a=b", "x = (y+1)*2;\n", "\t\t\t", "a b c d e f g", "?!?"] {
        let tokens = tokenize(line);
        let hist = count_token_types(&tokens);
        let entries = hist.entries();
        let sum: usize = entries.iter().map(|entry| entry.1).sum();
        assert_eq!(sum, tokens.len());
        for entry in &entries {
            assert!(entry.1 > 0);
            assert_eq!(hist.get(entry.0), Some(entry.1));
        }
        for kind in ALL {
            let expected = tokens.iter().filter(|t| t.token_type == kind).count();
            if expected == 0 {
                assert_eq!(hist.get(kind), None);
            } else {
                assert_eq!(hist.get(kind), Some(expected));
            }
        }
    }
}

#[test]
fn new_histogram_holds_nothing() {
    let hist = Histogram::new();
    assert_eq!(hist.entries(), vec![]);
    assert_eq!(hist.get(TokenType::Word), None);
    assert_eq!(hist, count_token_types(&[]));
}

#[test]
fn record_counts_one_more() {
    let mut hist = Histogram::new();
    hist.record(TokenType::Tab);
    assert_eq!(hist.get(TokenType::Tab), Some(1));
    hist.record(TokenType::Tab);
    hist.record(TokenType::Unknown);
    assert_eq!(hist.get(TokenType::Tab), Some(2));
    assert_eq!(hist.get(TokenType::Unknown), Some(1));
    assert_eq!(hist.get(TokenType::Word), None);
    assert_eq!(hist.entries(), vec![(TokenType::Tab, 2), (TokenType::Unknown, 1)]);
}
