use gmail_proxy::scrub::query::tokenize;
use gmail_proxy::scrub::tokenize::Token;

#[test]
fn test_tokenize_simple() {
    let tokens = tokenize("hello world").unwrap();
    assert_eq!(tokens.len(), 2);
}

#[test]
fn test_tokenize_operator() {
    let tokens = tokenize("from:alice").unwrap();
    assert_eq!(tokens.len(), 1);
    match &tokens[0].token {
        Token::Operator(k, v, neg) => {
            assert_eq!(k, "from");
            assert_eq!(v, "alice");
            assert!(!neg);
        }
        other => panic!("Expected Operator, got {other:?}"),
    }
}

#[test]
fn test_tokenize_negated_operator() {
    let tokens = tokenize("-from:bob").unwrap();
    assert_eq!(tokens.len(), 1);
    match &tokens[0].token {
        Token::Operator(k, v, neg) => {
            assert_eq!(k, "from");
            assert_eq!(v, "bob");
            assert!(neg);
        }
        other => panic!("Expected negated Operator, got {other:?}"),
    }
}

#[test]
fn tokenize_positions_and_kinds() {
    let tokens = tokenize("(a OR -\"x y\") -{b} c:\"d e\" -").unwrap();
    let kinds: Vec<Token> = tokens.iter().map(|t| t.token.clone()).collect();
    assert_eq!(
        kinds,
        vec![
            Token::OpenParen,
            Token::Word("a".into()),
            Token::Or,
            Token::Negation,
            Token::Quoted("x y".into()),
            Token::CloseParen,
            Token::Negation,
            Token::OpenBrace,
            Token::Word("b".into()),
            Token::CloseBrace,
            Token::Operator("c".into(), "d e".into(), false),
            Token::Word("-".into()),
        ]
    );
    let positions: Vec<usize> = tokens.iter().map(|t| t.pos).collect();
    assert_eq!(positions, vec![0, 1, 3, 6, 7, 12, 14, 15, 16, 17, 19, 27]);
}

#[test]
fn tokenize_negated_word_keeps_word_position() {
    let tokens = tokenize("  -spam").unwrap();
    assert_eq!(tokens.len(), 2);
    assert_eq!(tokens[0].token, Token::Negation);
    assert_eq!(tokens[0].pos, 2);
    assert_eq!(tokens[1].token, Token::Word("spam".into()));
    assert_eq!(tokens[1].pos, 3);
}

#[test]
fn tokenize_unterminated_quote_runs_to_end() {
    let tokens = tokenize("\"abc").unwrap();
    assert_eq!(tokens.len(), 1);
    assert_eq!(tokens[0].token, Token::Quoted("abc".into()));
}

#[test]
fn tokenize_unicode_whitespace_separates_words() {
    let tokens = tokenize("a\u{3000}b\u{a0}c").unwrap();
    assert_eq!(tokens.len(), 3);
    assert_eq!(tokens[2].pos, 4);
}

#[test]
fn token_positions_increase_and_point_at_text() {
    let q = " -\"a b\"  (x OR\u{3000}y)\tfrom:\"c d\" -z  ";
    let chars: Vec<char> = q.chars().collect();
    let tokens = tokenize(q).unwrap();
    assert!(!tokens.is_empty());
    for w in tokens.windows(2) {
        assert!(w[0].pos < w[1].pos);
    }
    for t in &tokens {
        assert!(t.pos < chars.len());
        assert!(!chars[t.pos].is_whitespace());
    }
}
