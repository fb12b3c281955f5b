use rynix::lexer::lexer::Lexer;
use rynix::lexer::token::{Token, TokenKind};

fn kinds(source: &str) -> Vec<TokenKind> {
    let mut lexer = Lexer::new(source);
    lexer.tokenize().unwrap().into_iter().map(|t| t.kind).collect()
}

fn ident(name: &str) -> TokenKind {
    TokenKind::Identifier(name.to_string())
}

fn integer(text: &str) -> TokenKind {
    TokenKind::Integer(text.to_string())
}

#[test]
fn keywords_are_read_as_whole_words() {
    assert_eq!(kinds("let lettuce"), vec![TokenKind::Let, ident("lettuce"), TokenKind::Eof]);
}

#[test]
fn all_ten_keywords() {
    assert_eq!(
        kinds("let const if else while for fn return true false"),
        vec![
            TokenKind::Let,
            TokenKind::Const,
            TokenKind::If,
            TokenKind::Else,
            TokenKind::While,
            TokenKind::For,
            TokenKind::Fn,
            TokenKind::Return,
            TokenKind::True,
            TokenKind::False,
            TokenKind::Eof,
        ]
    );
}

#[test]
fn names_take_digits_and_underscores() {
    assert_eq!(kinds("_temp1 x1"), vec![ident("_temp1"), ident("x1"), TokenKind::Eof]);
}

#[test]
fn number_then_name() {
    assert_eq!(kinds("1x"), vec![integer("1"), ident("x"), TokenKind::Eof]);
}

#[test]
fn equals_and_all_operators() {
    assert_eq!(
        kinds("= + - * / ( )"),
        vec![
            TokenKind::Equals,
            TokenKind::Plus,
            TokenKind::Minus,
            TokenKind::Star,
            TokenKind::Slash,
            TokenKind::LeftParen,
            TokenKind::RightParen,
            TokenKind::Eof,
        ]
    );
}

#[test]
fn comments_are_skipped_across_lines() {
    let mut lexer = Lexer::new("1 ~ a comment\nover two lines ~ + 2");
    let tokens = lexer.tokenize().unwrap();
    assert_eq!(
        tokens,
        vec![
            Token::new(integer("1"), 1, 1),
            Token::new(TokenKind::Plus, 2, 18),
            Token::new(integer("2"), 2, 20),
            Token::new(TokenKind::Eof, 2, 21),
        ]
    );
}

#[test]
fn unterminated_comment_points_at_its_start() {
    let mut lexer = Lexer::new("1\n  ~ oops");
    assert_eq!(
        lexer.tokenize(),
        Err("unterminated comment starting at line 2, column 3".to_string())
    );
}

#[test]
fn unexpected_character_message() {
    let mut lexer = Lexer::new("1 @ 2");
    assert_eq!(
        lexer.tokenize(),
        Err("unexpected character '@' at line 1, column 3".to_string())
    );
}

#[test]
fn positions_follow_lines_and_columns() {
    let mut lexer = Lexer::new("x\n  y\n\n123");
    let tokens = lexer.tokenize().unwrap();
    assert_eq!(
        tokens,
        vec![
            Token::new(ident("x"), 1, 1),
            Token::new(ident("y"), 2, 3),
            Token::new(integer("123"), 4, 1),
            Token::new(TokenKind::Eof, 4, 4),
        ]
    );
}

#[test]
fn unicode_letters_and_spaces() {
    assert_eq!(
        kinds("héllo\u{3000}x٣ 7"),
        vec![ident("héllo"), ident("x٣"), integer("7"), TokenKind::Eof]
    );
}

#[test]
fn lexed_list_ends_with_exactly_one_eof() {
    let mut lexer = Lexer::new("let a = (b + 12) * c ~ note ~");
    let tokens = lexer.tokenize().unwrap();
    let eofs = tokens.iter().filter(|t| t.kind == TokenKind::Eof).count();
    assert_eq!(eofs, 1);
    assert_eq!(tokens.last().unwrap().kind, TokenKind::Eof);
}

#[test]
fn tokenizing_again_gives_only_eof() {
    let mut lexer = Lexer::new("1 + 2");
    lexer.tokenize().unwrap();
    assert_eq!(lexer.tokenize().unwrap(), vec![Token::new(TokenKind::Eof, 1, 6)]);
}

#[test]
fn token_kinds_clone_and_compare() {
    let kind = ident("abc");
    assert_eq!(kind.clone(), kind);
    assert_ne!(kind, integer("abc"));
    let token = Token::new(TokenKind::Slash, 4, 2);
    assert_eq!(token.clone(), token);
}
