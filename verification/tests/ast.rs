use rynix::parser::ast::{BinaryOp, Expr, Stmt, UnaryOp};

#[test]
fn number_expression() {
    let expr = Expr::Number("42".to_string());
    assert_eq!(expr, Expr::Number("42".to_string()));
}

#[test]
fn build_one_plus_two_by_hand() {
    let expr = Expr::Binary {
        left: Box::new(Expr::Number("1".to_string())),
        op: BinaryOp::Add,
        right: Box::new(Expr::Number("2".to_string())),
    };

    if let Expr::Binary { left, op, right } = expr {
        assert_eq!(*left, Expr::Number("1".to_string()));
        assert_eq!(op, BinaryOp::Add);
        assert_eq!(*right, Expr::Number("2".to_string()));
    } else {
        panic!("expected a Binary expression");
    }
}

#[test]
fn build_one_plus_two_times_three_by_hand() {
    let expr = Expr::Binary {
        left: Box::new(Expr::Number("1".to_string())),
        op: BinaryOp::Add,
        right: Box::new(Expr::Binary {
            left: Box::new(Expr::Number("2".to_string())),
            op: BinaryOp::Multiply,
            right: Box::new(Expr::Number("3".to_string())),
        }),
    };

    if let Expr::Binary { op, right, .. } = expr {
        assert_eq!(op, BinaryOp::Add);
        assert!(matches!(*right, Expr::Binary { op: BinaryOp::Multiply, .. }));
    } else {
        panic!("expected a Binary expression at the top");
    }
}

#[test]
fn build_negation_by_hand() {
    let expr = Expr::Unary {
        op: UnaryOp::Negate,
        operand: Box::new(Expr::Number("5".to_string())),
    };

    if let Expr::Unary { op, operand } = expr {
        assert_eq!(op, UnaryOp::Negate);
        assert_eq!(*operand, Expr::Number("5".to_string()));
    } else {
        panic!("expected a Unary expression");
    }
}

#[test]
fn build_let_statement_by_hand() {
    // let x = 5
    let stmt = Stmt::Let {
        name: "x".to_string(),
        value: Expr::Number("5".to_string()),
    };

    if let Stmt::Let { name, value } = stmt {
        assert_eq!(name, "x");
        assert_eq!(value, Expr::Number("5".to_string()));
    } else {
        panic!("expected a Let statement");
    }
}
