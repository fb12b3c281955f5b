use rynix::lexer::token::{Token, TokenKind};

#[test]
fn token_holds_kind_and_location() {
    let tok = Token::new(TokenKind::Plus, 1, 5);
    assert_eq!(tok.kind, TokenKind::Plus);
    assert_eq!(tok.line, 1);
    assert_eq!(tok.column, 5);
}

#[test]
fn integer_token_stores_its_text() {
    let tok = Token::new(TokenKind::Integer("42".to_string()), 3, 1);
    assert_eq!(tok.kind, TokenKind::Integer("42".to_string()));
}
