use rynix::lexer::lexer::Lexer;
use rynix::lexer::token::{Token, TokenKind};
use rynix::parser::ast::{BinaryOp, Expr, Program, Stmt, UnaryOp};
use rynix::parser::parser::Parser;

fn parse_source(source: &str) -> Result<Program, String> {
    let mut lexer = Lexer::new(source);
    let tokens = lexer.tokenize()?;
    let mut parser = Parser::new(tokens);
    parser.parse()
}

fn num(text: &str) -> Box<Expr> {
    Box::new(Expr::Number(text.to_string()))
}

fn name(text: &str) -> Box<Expr> {
    Box::new(Expr::Identifier(text.to_string()))
}

fn bin(left: Box<Expr>, op: BinaryOp, right: Box<Expr>) -> Box<Expr> {
    Box::new(Expr::Binary { left, op, right })
}

fn neg(operand: Box<Expr>) -> Box<Expr> {
    Box::new(Expr::Unary { op: UnaryOp::Negate, operand })
}

fn single_expression(source: &str) -> Expr {
    let program = parse_source(source).unwrap();
    assert_eq!(program.len(), 1);
    match program.into_iter().next().unwrap() {
        Stmt::Expression(e) => e,
        other => panic!("expected an expression statement, got {:?}", other),
    }
}

#[test]
fn assignment_statement() {
    assert_eq!(
        parse_source("x = 10").unwrap(),
        vec![Stmt::Assign { name: "x".to_string(), value: *num("10") }]
    );
}

#[test]
fn name_followed_by_plus_is_an_expression() {
    assert_eq!(single_expression("x + 2"), *bin(name("x"), BinaryOp::Add, num("2")));
}

#[test]
fn parenthesized_rendering_parses_back() {
    let expected = bin(
        bin(num("1"), BinaryOp::Add, name("x")),
        BinaryOp::Multiply,
        neg(bin(num("2"), BinaryOp::Subtract, name("y"))),
    );
    assert_eq!(single_expression("((1 + x) * -(2 - y))"), *expected);
}

#[test]
fn product_then_sum() {
    assert_eq!(
        single_expression("a * b + c"),
        *bin(bin(name("a"), BinaryOp::Multiply, name("b")), BinaryOp::Add, name("c"))
    );
}

#[test]
fn division_and_multiplication_associate_left() {
    assert_eq!(
        single_expression("a / b * c"),
        *bin(bin(name("a"), BinaryOp::Divide, name("b")), BinaryOp::Multiply, name("c"))
    );
}

#[test]
fn negation_binds_tighter_than_times() {
    assert_eq!(
        single_expression("-a * b"),
        *bin(neg(name("a")), BinaryOp::Multiply, name("b"))
    );
}

#[test]
fn let_without_name_message() {
    assert_eq!(
        parse_source("let = 5"),
        Err("expected a variable name after 'let', found Equals at line 1, column 5".to_string())
    );
}

#[test]
fn let_without_equals_message() {
    assert_eq!(
        parse_source("let x 5"),
        Err("expected Equals, found Integer(\"5\") at line 1, column 7".to_string())
    );
}

#[test]
fn missing_paren_message() {
    assert_eq!(
        parse_source("(1 + 2"),
        Err("expected RightParen, found Eof at line 1, column 7".to_string())
    );
}

#[test]
fn keyword_where_a_value_belongs() {
    assert_eq!(
        parse_source("if"),
        Err("expected a number, name, or '(', found If at line 1, column 1".to_string())
    );
}

#[test]
fn empty_program() {
    assert_eq!(parse_source("  ~ nothing ~ ").unwrap(), vec![]);
}

#[test]
fn parse_stops_at_the_first_eof() {
    let tokens = vec![
        Token::new(TokenKind::Integer("1".to_string()), 1, 1),
        Token::new(TokenKind::Eof, 1, 2),
        Token::new(TokenKind::Integer("2".to_string()), 1, 3),
        Token::new(TokenKind::Eof, 1, 4),
    ];
    let mut parser = Parser::new(tokens);
    assert_eq!(parser.parse().unwrap(), vec![Stmt::Expression(*num("1"))]);
}

#[test]
fn statements_need_no_separator() {
    assert_eq!(
        parse_source("1 2").unwrap(),
        vec![Stmt::Expression(*num("1")), Stmt::Expression(*num("2"))]
    );
}

#[test]
fn expressions_clone_equal() {
    let e = *bin(neg(num("3")), BinaryOp::Subtract, name("z"));
    assert_eq!(e.clone(), e);
    let s = Stmt::Let { name: "z".to_string(), value: e };
    assert_eq!(s.clone(), s);
}

#[test]
fn long_chain_associates_left() {
    assert_eq!(
        single_expression("a - b + c - d"),
        *bin(
            bin(bin(name("a"), BinaryOp::Subtract, name("b")), BinaryOp::Add, name("c")),
            BinaryOp::Subtract,
            name("d")
        )
    );
}

#[test]
fn three_negations_nest() {
    assert_eq!(single_expression("---5"), *neg(neg(neg(num("5")))));
}

#[test]
fn parentheses_leave_no_node() {
    assert_eq!(single_expression("((42))"), *num("42"));
}

#[test]
fn assignment_reads_before_it_writes() {
    assert_eq!(
        parse_source("x = x + 1").unwrap(),
        vec![Stmt::Assign { name: "x".to_string(), value: *bin(name("x"), BinaryOp::Add, num("1")) }]
    );
}
