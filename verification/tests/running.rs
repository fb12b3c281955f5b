use rynix::interpreter::eval::{eval, run, run_checked, Env};
use rynix::lexer::lexer::Lexer;
use rynix::parser::ast::{Expr, Program, UnaryOp};
use rynix::parser::parser::Parser;

fn program_of(source: &str) -> Program {
    let mut lexer = Lexer::new(source);
    let tokens = lexer.tokenize().unwrap();
    let mut parser = Parser::new(tokens);
    parser.parse().unwrap()
}

fn outcome(source: &str) -> Option<Result<Option<i64>, String>> {
    run_checked(&program_of(source))
}

fn number(text: &str) -> Expr {
    Expr::Number(text.to_string())
}

#[test]
fn division_truncates_toward_zero() {
    assert_eq!(run(&program_of("7 / 2")), Ok(Some(3)));
    assert_eq!(run(&program_of("-7 / 2")), Ok(Some(-3)));
    assert_eq!(run(&program_of("7 / -2")), Ok(Some(-3)));
    assert_eq!(run(&program_of("-7 / -2")), Ok(Some(3)));
}

#[test]
fn overflow_is_reported_by_run_checked() {
    assert_eq!(outcome("9223372036854775807 + 1"), None);
    assert_eq!(outcome("-9223372036854775807 - 2"), None);
    assert_eq!(outcome("4294967296 * 4294967296"), None);
    assert_eq!(outcome("(-9223372036854775807 - 1) / -1"), None);
    assert_eq!(outcome("let m = -9223372036854775807 - 1\n(--m)"), None);
}

#[test]
fn extremes_that_fit() {
    assert_eq!(outcome("-9223372036854775807 - 1"), Some(Ok(Some(i64::MIN))));
    assert_eq!(outcome("9223372036854775807"), Some(Ok(Some(i64::MAX))));
    assert_eq!(outcome("(-9223372036854775807 - 1) / 1"), Some(Ok(Some(i64::MIN))));
}

#[test]
fn literal_too_large_is_an_error() {
    assert_eq!(
        run(&program_of("9223372036854775808")),
        Err("invalid integer literal: 9223372036854775808".to_string())
    );
}

#[test]
fn runtime_error_messages() {
    assert_eq!(run(&program_of("x + 1")), Err("undefined variable: x".to_string()));
    assert_eq!(
        run(&program_of("x = 10")),
        Err("cannot assign to undefined variable: x".to_string())
    );
    assert_eq!(run(&program_of("10 / 0")), Err("division by zero".to_string()));
}

#[test]
fn first_error_stops_the_program() {
    assert_eq!(
        run(&program_of("let a = 1 / 0\nb")),
        Err("division by zero".to_string())
    );
}

#[test]
fn program_value_is_that_of_its_last_statement() {
    assert_eq!(run(&program_of("")), Ok(None));
    assert_eq!(run(&program_of("1\nlet x = 2")), Ok(None));
    assert_eq!(run(&program_of("let x = 2\nx\nx = 3")), Ok(None));
    assert_eq!(run(&program_of("1\n2\n3")), Ok(Some(3)));
}

#[test]
fn later_statement_sees_definition() {
    assert_eq!(run(&program_of("let answer = 6 * 7\nanswer")), Ok(Some(42)));
}

#[test]
fn assignment_replaces_value_using_current_one() {
    assert_eq!(run(&program_of("let n = 4\nn = n * n\nn")), Ok(Some(16)));
}

#[test]
fn double_negation_of_a_variable() {
    assert_eq!(run(&program_of("let v = 12\n(--v)")), Ok(Some(12)));
}

#[test]
fn newline_does_not_end_an_expression() {
    // `let v = 12 --v` subtracts the negation of a `v` that is not yet defined.
    assert_eq!(
        run(&program_of("let v = 12\n--v")),
        Err("undefined variable: v".to_string())
    );
}

#[test]
fn literals_read_like_str_parse() {
    let env = Env::new();
    assert_eq!(eval(&number("+7"), &env), Ok(7));
    assert_eq!(eval(&number("-5"), &env), Ok(-5));
    assert_eq!(eval(&number("007"), &env), Ok(7));
    assert_eq!(eval(&number("-9223372036854775808"), &env), Ok(i64::MIN));
    assert_eq!(eval(&number(""), &env), Err("invalid integer literal: ".to_string()));
    assert_eq!(eval(&number("-"), &env), Err("invalid integer literal: -".to_string()));
    assert_eq!(eval(&number("1_000"), &env), Err("invalid integer literal: 1_000".to_string()));
    assert_eq!(eval(&number(" 1"), &env), Err("invalid integer literal:  1".to_string()));
}

#[test]
fn environment_reads_back_writes() {
    let mut env = Env::new();
    let x = "x".to_string();
    let y = "y".to_string();
    assert_eq!(env.get(&x), None);
    assert!(!env.contains_key(&x));
    env.insert(x.clone(), 5);
    env.insert(y.clone(), 6);
    env.insert(x.clone(), 7);
    assert_eq!(env.get(&x), Some(7));
    assert_eq!(env.get(&y), Some(6));
    assert!(env.contains_key(&y));
    let negated = Expr::Unary { op: UnaryOp::Negate, operand: Box::new(Expr::Identifier(x)) };
    assert_eq!(eval(&negated, &env), Ok(-7));
}
