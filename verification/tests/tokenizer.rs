use rowstore::tokenizer::{Keyword, Span, Token, TokenKind, Tokenizer};

fn scan(input: &str) -> Vec<Token> {
    Tokenizer::new(input).parse()
}

#[test]
fn test_tokenize_keyword() {
    let input = "SELECT INSERT";

    let tokens = scan(input);

    assert_eq!(
        tokens,
        vec![
            Token {
                span: Span { start: 0, end: 6 },
                kind: TokenKind::Keyword(Keyword::Select)
            },
            Token {
                span: Span { start: 6, end: 7 },
                kind: TokenKind::Whitespace,
            },
            Token {
                span: Span { start: 7, end: 13 },
                kind: TokenKind::Keyword(Keyword::Insert),
            }
        ]
    )
}

#[test]
fn test_tokenize_comma() {
    let input = "Select,Insert";
    let tokens = scan(input);

    assert_eq!(
        tokens,
        vec![
            Token {
                span: Span { start: 0, end: 6 },
                kind: TokenKind::Keyword(Keyword::Select)
            },
            Token {
                span: Span { start: 6, end: 7 },
                kind: TokenKind::Comma,
            },
            Token {
                span: Span { start: 7, end: 13 },
                kind: TokenKind::Keyword(Keyword::Insert)
            },
        ]
    )
}

#[test]
fn test_tokenize_iden() {
    let input = "Select   'id'";

    let tokens = scan(input);

    assert_eq!(
        tokens,
        vec![
            Token {
                span: Span { start: 0, end: 6 },
                kind: TokenKind::Keyword(Keyword::Select)
            },
            Token {
                span: Span { start: 6, end: 9 },
                kind: TokenKind::Whitespace,
            },
            Token {
                span: Span { start: 9, end: 13 },
                kind: TokenKind::Identifier(String::from("id")),
            }
        ]
    );
}

#[test]
fn test_tokenize_select_with_where() {
    let input = "SELECT 'id' FROM 'users' WHERE 'id' = 2;";
    let tokens = scan(input);

    assert_eq!(
        tokens,
        vec![
            Token {
                span: Span { start: 0, end: 6 },
                kind: TokenKind::Keyword(Keyword::Select)
            },
            Token {
                span: Span { start: 6, end: 7 },
                kind: TokenKind::Whitespace,
            },
            Token {
                span: Span { start: 7, end: 11 },
                kind: TokenKind::Identifier(String::from("id")),
            },
            Token {
                span: Span { start: 11, end: 12 },
                kind: TokenKind::Whitespace,
            },
            Token {
                span: Span { start: 12, end: 16 },
                kind: TokenKind::Keyword(Keyword::From),
            },
            Token {
                span: Span { start: 16, end: 17 },
                kind: TokenKind::Whitespace,
            },
            Token {
                span: Span { start: 17, end: 24 },
                kind: TokenKind::Identifier(String::from("users")),
            },
            Token {
                span: Span { start: 24, end: 25 },
                kind: TokenKind::Whitespace,
            },
            Token {
                span: Span { start: 25, end: 30 },
                kind: TokenKind::Keyword(Keyword::Where),
            },
            Token {
                span: Span { start: 30, end: 31 },
                kind: TokenKind::Whitespace,
            },
            Token {
                span: Span { start: 31, end: 35 },
                kind: TokenKind::Identifier(String::from("id")),
            },
            Token {
                span: Span { start: 35, end: 36 },
                kind: TokenKind::Whitespace,
            },
            Token {
                span: Span { start: 36, end: 37 },
                kind: TokenKind::Equals,
            },
            Token {
                span: Span { start: 37, end: 38 },
                kind: TokenKind::Whitespace,
            },
            Token {
                span: Span { start: 38, end: 39 },
                kind: TokenKind::Integer(2),
            },
            Token {
                span: Span { start: 39, end: 40 },
                kind: TokenKind::SemiColon,
            },
        ]
    )
}

#[test]
fn tokenizer_test_tokenize_keyword() {
    let tokens = scan("SELECT INSERT");
    assert_eq!(
        tokens,
        vec![
            Token {
                span: Span { start: 0, end: 6 },
                kind: TokenKind::Keyword(Keyword::Select)
            },
            Token {
                span: Span { start: 6, end: 7 },
                kind: TokenKind::Whitespace,
            },
            Token {
                span: Span { start: 7, end: 13 },
                kind: TokenKind::Keyword(Keyword::Insert),
            }
        ]
    )
}

#[test]
fn tokenizer_test_tokenize_comma() {
    let tokens = scan("Select,Insert");
    assert_eq!(
        tokens,
        vec![
            Token {
                span: Span { start: 0, end: 6 },
                kind: TokenKind::Keyword(Keyword::Select)
            },
            Token {
                span: Span { start: 6, end: 7 },
                kind: TokenKind::Comma,
            },
            Token {
                span: Span { start: 7, end: 13 },
                kind: TokenKind::Keyword(Keyword::Insert)
            },
        ]
    )
}

#[test]
fn tokenizer_test_tokenize_iden() {
    let tokens = scan("Select   'id'");
    assert_eq!(
        tokens,
        vec![
            Token {
                span: Span { start: 0, end: 6 },
                kind: TokenKind::Keyword(Keyword::Select)
            },
            Token {
                span: Span { start: 6, end: 9 },
                kind: TokenKind::Whitespace,
            },
            Token {
                span: Span { start: 9, end: 13 },
                kind: TokenKind::Identifier(String::from("id")),
            }
        ]
    );
}

#[test]
fn tokenizer_test_tokenize_select_with_where() {
    let input = "SELECT 'id' FROM 'users' WHERE 'id' = 2;";

    let tokenizer = Tokenizer::new(input);
    let tokens = tokenizer.parse();

    assert_eq!(
        tokens,
        vec![
            Token {
                span: Span { start: 0, end: 6 },
                kind: TokenKind::Keyword(Keyword::Select)
            },
            Token {
                span: Span { start: 6, end: 7 },
                kind: TokenKind::Whitespace,
            },
            Token {
                span: Span { start: 7, end: 11 },
                kind: TokenKind::Identifier(String::from("id")),
            },
            Token {
                span: Span { start: 11, end: 12 },
                kind: TokenKind::Whitespace,
            },
            Token {
                span: Span { start: 12, end: 16 },
                kind: TokenKind::Keyword(Keyword::From),
            },
            Token {
                span: Span { start: 16, end: 17 },
                kind: TokenKind::Whitespace,
            },
            Token {
                span: Span { start: 17, end: 24 },
                kind: TokenKind::Identifier(String::from("users")),
            },
            Token {
                span: Span { start: 24, end: 25 },
                kind: TokenKind::Whitespace,
            },
            Token {
                span: Span { start: 25, end: 30 },
                kind: TokenKind::Keyword(Keyword::Where),
            },
            Token {
                span: Span { start: 30, end: 31 },
                kind: TokenKind::Whitespace,
            },
            Token {
                span: Span { start: 31, end: 35 },
                kind: TokenKind::Identifier(String::from("id")),
            },
            Token {
                span: Span { start: 35, end: 36 },
                kind: TokenKind::Whitespace,
            },
            Token {
                span: Span { start: 36, end: 37 },
                kind: TokenKind::Equals,
            },
            Token {
                span: Span { start: 37, end: 38 },
                kind: TokenKind::Whitespace,
            },
            Token {
                span: Span { start: 38, end: 39 },
                kind: TokenKind::Integer(2),
            },
            Token {
                span: Span { start: 39, end: 40 },
                kind: TokenKind::SemiColon,
            },
        ]
    )
}

/// Span coverage: for this input the token spans are contiguous,
/// non-overlapping, and their union is exactly `[0, input.len())`.
#[test]
fn span_coverage_select_from() {
    let input = "SELECT 'id' FROM 'users'";
    let tokens = scan(input);
    assert!(!tokens.is_empty());
    assert_eq!(tokens[0].span.start, 0);
    for w in tokens.windows(2) {
        assert_eq!(w[0].span.end, w[1].span.start);
    }
    for t in &tokens {
        assert!(t.span.start < t.span.end);
    }
    assert_eq!(tokens.last().unwrap().span.end, input.len());
}

#[test]
fn bare_identifiers_and_keyword_boundary() {
    let tokens = scan("selection");
    assert_eq!(
        tokens,
        vec![Token {
            span: Span { start: 0, end: 9 },
            kind: TokenKind::Identifier(String::from("selection")),
        }]
    );

    let tokens = scan("SELECT id FROM users");
    assert_eq!(tokens.len(), 7);
    assert_eq!(tokens[2].kind, TokenKind::Identifier(String::from("id")));
    assert_eq!(tokens[6].kind, TokenKind::Identifier(String::from("users")));
}

#[test]
fn comparison_operators() {
    let tokens = scan(">= > <= < = ;");
    let kinds: Vec<&TokenKind> = tokens.iter().map(|t| &t.kind).collect();
    assert_eq!(
        kinds,
        vec![
            &TokenKind::GreaterThanEquals,
            &TokenKind::Whitespace,
            &TokenKind::GreaterThan,
            &TokenKind::Whitespace,
            &TokenKind::SmallerThanEquals,
            &TokenKind::Whitespace,
            &TokenKind::SmallerThan,
            &TokenKind::Whitespace,
            &TokenKind::Equals,
            &TokenKind::Whitespace,
            &TokenKind::SemiColon,
        ]
    );
}

#[test]
fn unrecognized_character_stops_scan() {
    // '#' matches no recognizer: everything from it on is dropped
    let tokens = scan("SELECT #rest");
    assert_eq!(tokens.len(), 2);
    assert_eq!(tokens[0].kind, TokenKind::Keyword(Keyword::Select));
    assert_eq!(tokens[1].kind, TokenKind::Whitespace);
}

#[test]
fn integer_literals_and_overflow() {
    let tokens = scan("4294967295");
    assert_eq!(
        tokens,
        vec![Token {
            span: Span { start: 0, end: 10 },
            kind: TokenKind::Integer(u32::MAX),
        }]
    );

    // one past u32::MAX: not recognized, scanning stops instead of
    // aborting
    let tokens = scan("4294967296");
    assert_eq!(tokens, vec![]);
}

#[test]
fn empty_input_has_no_tokens() {
    assert_eq!(scan(""), vec![]);
}

#[test]
fn string_literal_token() {
    let tokens = scan("\"bob@x.com\"");
    assert_eq!(
        tokens,
        vec![Token {
            span: Span { start: 0, end: 11 },
            kind: TokenKind::String(String::from("bob@x.com")),
        }]
    );
}

#[test]
fn quoted_identifier_keeps_only_name_characters() {
    // characters that do not belong in an identifier are dropped from
    // the text, but the span still covers the quotes
    let tokens = scan("'a1b'");
    assert_eq!(
        tokens,
        vec![Token {
            span: Span { start: 0, end: 5 },
            kind: TokenKind::Identifier(String::from("ab")),
        }]
    );
}
