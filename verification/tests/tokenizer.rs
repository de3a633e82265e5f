use alcc::lexer::{Lexer, TextSpan, Token, TokenKind};

fn collect_tokens(source: &str) -> Vec<Token> {
    let mut lexer = Lexer::new(source);
    let mut tokens: Vec<Token> = Vec::new();
    while let Some(token) = lexer.next_token() {
        tokens.push(token);
    }
    tokens
}

#[test]
fn digits_only_yields_one_number_then_eof() {
    let tokens = collect_tokens("12345");
    assert_eq!(tokens.len(), 2);
    assert_eq!(tokens[0].kind, TokenKind::NumberLiteral(12345));
    assert_eq!(tokens[0].span.start, 0);
    assert_eq!(tokens[0].span.end, 5);
    assert_eq!(tokens[0].span.text, "12345");
    assert_eq!(tokens[1].kind, TokenKind::Eof);
    assert_eq!(tokens[1].span.start, 0);
    assert_eq!(tokens[1].span.end, 0);
    assert_eq!(tokens[1].span.text, "\0");
}

#[test]
fn leading_zeros_accumulate_base_ten() {
    let tokens = collect_tokens("0042");
    assert_eq!(tokens[0].kind, TokenKind::NumberLiteral(42));
}

#[test]
fn whitespace_only_yields_exactly_eof() {
    let tokens = collect_tokens(" \t\r\n  ");
    assert_eq!(tokens.len(), 1);
    assert_eq!(tokens[0].kind, TokenKind::Eof);
}

#[test]
fn empty_source_yields_exactly_eof() {
    let tokens = collect_tokens("");
    assert_eq!(tokens.len(), 1);
    assert_eq!(tokens[0].kind, TokenKind::Eof);
}

#[test]
fn stream_is_exhausted_after_eof() {
    let mut lexer = Lexer::new("7");
    assert!(lexer.next_token().is_some());
    assert!(lexer.next_token().is_some());
    assert!(lexer.next_token().is_none());
    assert!(lexer.next_token().is_none());
}

#[test]
fn spans_partition_source_minus_whitespace() {
    let source = "1 + (10 /     100 -              1) ";
    let chars: Vec<char> = source.chars().collect();
    let tokens = collect_tokens(source);
    let mut covered: Vec<bool> = vec![false; chars.len()];
    let mut previous_end = 0;
    for token in tokens.iter() {
        if token.kind == TokenKind::Eof {
            continue;
        }
        // Spans are in source order and never overlap.
        assert!(previous_end <= token.span.start);
        assert!(token.span.start < token.span.end);
        assert!(token.span.end <= chars.len());
        // Each span's text is the exact slice it covers.
        let slice: String = chars[token.span.start..token.span.end].iter().collect();
        assert_eq!(token.span.text, slice);
        for i in token.span.start..token.span.end {
            covered[i] = true;
        }
        previous_end = token.span.end;
    }
    // Re-inserting the skipped whitespace at uncovered positions
    // reproduces the source exactly.
    let mut rebuilt = String::new();
    let mut cursor = 0;
    for token in tokens.iter() {
        if token.kind == TokenKind::Eof {
            continue;
        }
        for i in cursor..token.span.start {
            assert!(chars[i].is_whitespace());
            rebuilt.push(chars[i]);
        }
        rebuilt.push_str(&token.span.text);
        cursor = token.span.end;
    }
    for i in cursor..chars.len() {
        assert!(chars[i].is_whitespace());
        rebuilt.push(chars[i]);
    }
    assert_eq!(rebuilt, source);
    // A position is covered exactly when it is not whitespace.
    for i in 0..chars.len() {
        assert_eq!(covered[i], !chars[i].is_whitespace());
    }
}

#[test]
fn retokenizing_fresh_yields_identical_sequence() {
    let source = "1 + (10 / 100 - 1)";
    let first = collect_tokens(source);
    let second = collect_tokens(source);
    assert_eq!(first, second);
}

#[test]
fn unrecognized_character_becomes_invalid_kind() {
    let tokens = collect_tokens("@");
    assert_eq!(tokens.len(), 2);
    assert_eq!(tokens[0].kind, TokenKind::Invalid);
    assert_eq!(tokens[0].span.text, "@");
    assert_eq!(tokens[1].kind, TokenKind::Eof);
}

#[test]
fn every_punctuation_character_maps_to_its_kind() {
    let cases: Vec<(&str, TokenKind)> = vec![
        ("+", TokenKind::Plus),
        ("-", TokenKind::Minus),
        ("/", TokenKind::ForwardSlash),
        ("*", TokenKind::Asterisk),
        ("(", TokenKind::LeftParen),
        (")", TokenKind::RightParen),
        ("{", TokenKind::LeftBracket),
        ("}", TokenKind::RightBracket),
        ("[", TokenKind::LeftSquareBracket),
        ("]", TokenKind::RightSquareBracket),
        ("<", TokenKind::LeftAngleBracket),
        (">", TokenKind::RightAngleBracket),
        (",", TokenKind::Comma),
        ("\"", TokenKind::DoubleQuote),
        ("'", TokenKind::SingleQuote),
        (":", TokenKind::Colon),
        (";", TokenKind::SemiColon),
        ("=", TokenKind::Equal),
    ];
    for (source, expected) in cases {
        let tokens = collect_tokens(source);
        assert_eq!(tokens.len(), 2);
        assert_eq!(tokens[0].kind, expected);
    }
}

#[test]
fn oversized_literal_saturates_at_i64_max() {
    let tokens = collect_tokens("9223372036854775808");
    assert_eq!(tokens[0].kind, TokenKind::NumberLiteral(i64::MAX));
}

#[test]
fn largest_literal_is_exact() {
    let tokens = collect_tokens("9223372036854775807");
    assert_eq!(tokens[0].kind, TokenKind::NumberLiteral(i64::MAX));
}

#[test]
fn text_span_new_and_len() {
    let span = TextSpan::new(3, 8, String::from("hello"));
    assert_eq!(span.start, 3);
    assert_eq!(span.end, 8);
    assert_eq!(span.len(), 5);
    assert_eq!(span.text, "hello");
}

#[test]
fn token_new_keeps_kind_and_span() {
    let token = Token::new(TokenKind::Plus, TextSpan::new(0, 1, String::from("+")));
    assert_eq!(token.kind, TokenKind::Plus);
    assert_eq!(token.span.start, 0);
    assert_eq!(token.span.end, 1);
}

#[test]
fn end_to_end_example_token_kinds() {
    let tokens = collect_tokens("1 + (10 / 100 - 1)");
    let kinds: Vec<TokenKind> = tokens.iter().map(|t| t.kind).collect();
    assert_eq!(
        kinds,
        vec![
            TokenKind::NumberLiteral(1),
            TokenKind::Plus,
            TokenKind::LeftParen,
            TokenKind::NumberLiteral(10),
            TokenKind::ForwardSlash,
            TokenKind::NumberLiteral(100),
            TokenKind::Minus,
            TokenKind::NumberLiteral(1),
            TokenKind::RightParen,
            TokenKind::Eof,
        ]
    );
}
