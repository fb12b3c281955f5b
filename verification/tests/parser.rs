use rynix::lexer::lexer::Lexer;
use rynix::parser::ast::{BinaryOp, Expr, Program, Stmt, UnaryOp};
use rynix::parser::parser::Parser;

fn parse_str(source: &str) -> Result<Program, String> {
    let mut lexer = Lexer::new(source);
    let tokens = lexer.tokenize()?;
    let mut parser = Parser::new(tokens);
    parser.parse()
}

// Helper: parse a single-statement program and return that statement.
fn parse_one(source: &str) -> Stmt {
    let program = parse_str(source).unwrap();
    assert_eq!(program.len(), 1, "expected exactly one statement");
    program.into_iter().next().unwrap()
}

#[test]
fn single_number_is_expression_statement() {
    let stmt = parse_one("42");
    assert_eq!(stmt, Stmt::Expression(Expr::Number("42".to_string())));
}

#[test]
fn simple_addition() {
    let stmt = parse_one("1 + 2");
    assert_eq!(
        stmt,
        Stmt::Expression(Expr::Binary {
            left: Box::new(Expr::Number("1".to_string())),
            op: BinaryOp::Add,
            right: Box::new(Expr::Number("2".to_string())),
        })
    );
}

#[test]
fn precedence_multiply_binds_tighter() {
    let stmt = parse_one("1 + 2 * 3");
    match stmt {
        Stmt::Expression(Expr::Binary { op: BinaryOp::Add, right, .. }) => {
            assert!(matches!(*right, Expr::Binary { op: BinaryOp::Multiply, .. }));
        }
        _ => panic!("expected + at the top with a * on the right"),
    }
}

#[test]
fn parentheses_override_precedence() {
    let stmt = parse_one("(1 + 2) * 3");
    match stmt {
        Stmt::Expression(Expr::Binary { op: BinaryOp::Multiply, left, .. }) => {
            assert!(matches!(*left, Expr::Binary { op: BinaryOp::Add, .. }));
        }
        _ => panic!("expected * at the top with a + on the left"),
    }
}

#[test]
fn left_associativity() {
    let stmt = parse_one("1 - 2 - 3");
    match stmt {
        Stmt::Expression(Expr::Binary { op: BinaryOp::Subtract, left, .. }) => {
            assert!(matches!(*left, Expr::Binary { op: BinaryOp::Subtract, .. }));
        }
        _ => panic!("expected left-associative subtraction"),
    }
}

#[test]
fn parser_simple_negation() {
    let stmt = parse_one("-5");
    assert_eq!(
        stmt,
        Stmt::Expression(Expr::Unary {
            op: UnaryOp::Negate,
            operand: Box::new(Expr::Number("5".to_string())),
        })
    );
}

#[test]
fn double_negation() {
    let stmt = parse_one("--5");
    match stmt {
        Stmt::Expression(Expr::Unary { op: UnaryOp::Negate, operand }) => {
            assert!(matches!(*operand, Expr::Unary { op: UnaryOp::Negate, .. }));
        }
        _ => panic!("expected nested negation"),
    }
}

#[test]
fn negation_binds_tighter_than_plus() {
    let stmt = parse_one("-2 + 3");
    match stmt {
        Stmt::Expression(Expr::Binary { op: BinaryOp::Add, left, .. }) => {
            assert!(matches!(*left, Expr::Unary { op: UnaryOp::Negate, .. }));
        }
        _ => panic!("expected + at the top with a negation on the left"),
    }
}

#[test]
fn identifier_is_an_expression() {
    let stmt = parse_one("x");
    assert_eq!(stmt, Stmt::Expression(Expr::Identifier("x".to_string())));
}

#[test]
fn let_statement() {
    let stmt = parse_one("let x = 5");
    assert_eq!(
        stmt,
        Stmt::Let {
            name: "x".to_string(),
            value: Expr::Number("5".to_string()),
        }
    );
}

#[test]
fn let_with_expression_value() {
    // let y = x + 2
    let stmt = parse_one("let y = x + 2");
    match stmt {
        Stmt::Let { name, value } => {
            assert_eq!(name, "y");
            assert!(matches!(value, Expr::Binary { op: BinaryOp::Add, .. }));
        }
        _ => panic!("expected a let statement"),
    }
}

#[test]
fn multiple_statements() {
    let program = parse_str("let x = 5\nlet y = x + 2\ny * 10").unwrap();
    assert_eq!(program.len(), 3);
    assert!(matches!(program[0], Stmt::Let { .. }));
    assert!(matches!(program[1], Stmt::Let { .. }));
    assert!(matches!(program[2], Stmt::Expression(_)));
}

#[test]
fn let_without_name_errors() {
    assert!(parse_str("let = 5").is_err());
}

#[test]
fn let_without_equals_errors() {
    assert!(parse_str("let x 5").is_err());
}

#[test]
fn missing_closing_paren_errors() {
    assert!(parse_str("(1 + 2").is_err());
}
