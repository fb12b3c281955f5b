use rynix::lexer::lexer::Lexer;
use rynix::lexer::token::{Token, TokenKind};

#[test]
fn empty_input_gives_only_eof() {
    let mut lexer = Lexer::new("");
    let tokens = lexer.tokenize().unwrap();
    assert_eq!(tokens, vec![Token::new(TokenKind::Eof, 1, 1)]);
}

#[test]
fn lexer_single_number() {
    let mut lexer = Lexer::new("42");
    let tokens = lexer.tokenize().unwrap();
    assert_eq!(tokens[0].kind, TokenKind::Integer("42".to_string()));
}

#[test]
fn multi_digit_number_is_one_token() {
    let mut lexer = Lexer::new("12345");
    let tokens = lexer.tokenize().unwrap();
    // One Integer token plus the Eof token.
    assert_eq!(tokens.len(), 2);
    assert_eq!(tokens[0].kind, TokenKind::Integer("12345".to_string()));
}

#[test]
fn operators_and_numbers() {
    let mut lexer = Lexer::new("1 + 2 * 3");
    let tokens = lexer.tokenize().unwrap();
    let kinds: Vec<TokenKind> = tokens.into_iter().map(|t| t.kind).collect();
    assert_eq!(
        kinds,
        vec![
            TokenKind::Integer("1".to_string()),
            TokenKind::Plus,
            TokenKind::Integer("2".to_string()),
            TokenKind::Star,
            TokenKind::Integer("3".to_string()),
            TokenKind::Eof,
        ]
    );
}

#[test]
fn parentheses() {
    let mut lexer = Lexer::new("(1)");
    let tokens = lexer.tokenize().unwrap();
    let kinds: Vec<TokenKind> = tokens.into_iter().map(|t| t.kind).collect();
    assert_eq!(
        kinds,
        vec![
            TokenKind::LeftParen,
            TokenKind::Integer("1".to_string()),
            TokenKind::RightParen,
            TokenKind::Eof,
        ]
    );
}

#[test]
fn unexpected_character_errors() {
    let mut lexer = Lexer::new("1 @ 2");
    let result = lexer.tokenize();
    assert!(result.is_err());
}
