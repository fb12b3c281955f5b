use rynix::interpreter::eval::run;
use rynix::lexer::lexer::Lexer;
use rynix::parser::parser::Parser;

fn run_str(source: &str) -> Result<Option<i64>, String> {
    let mut lexer = Lexer::new(source);
    let tokens = lexer.tokenize()?;
    let mut parser = Parser::new(tokens);
    let program = parser.parse()?;
    run(&program)
}

fn eval_str(source: &str) -> Result<i64, String> {
    Ok(run_str(source)?.expect("expected a value"))
}

#[test]
fn eval_single_number() {
    assert_eq!(eval_str("42").unwrap(), 42);
}

#[test]
fn precedence_is_obeyed() {
    assert_eq!(eval_str("1 + 2 * 3").unwrap(), 7);
}

#[test]
fn division_by_zero_errors() {
    assert!(eval_str("10 / 0").is_err());
}

#[test]
fn eval_simple_negation() {
    assert_eq!(eval_str("-5").unwrap(), -5);
}

#[test]
fn double_negation_cancels() {
    assert_eq!(eval_str("--5").unwrap(), 5);
}

#[test]
fn negation_precedence() {
    assert_eq!(eval_str("-2 + 3").unwrap(), 1);
}

#[test]
fn variable_depends_on_earlier_variable() {
    assert_eq!(eval_str("let x = 5\nlet y = x + 2\ny * 10").unwrap(), 70);
}

#[test]
fn redefining_with_let_overwrites() {
    assert_eq!(eval_str("let x = 5\nlet x = 10\nx").unwrap(), 10);
}

#[test]
fn undefined_variable_errors() {
    assert!(eval_str("x + 1").is_err());
}

#[test]
fn assignment_changes_value() {
    assert_eq!(eval_str("let x = 5\nx = 10\nx").unwrap(), 10);
}

#[test]
fn assignment_uses_current_values() {
    // x becomes x + 1 using x's current value.
    assert_eq!(eval_str("let x = 5\nx = x + 1\nx").unwrap(), 6);
}

#[test]
fn assignment_affects_later_expression() {
    assert_eq!(eval_str("let x = 5\nx = 20\nx * 2").unwrap(), 40);
}

#[test]
fn assign_to_undefined_variable_errors() {
    // No `let x` first, so `x = 10` must fail.
    assert!(eval_str("x = 10").is_err());
}

#[test]
fn assign_uses_another_variable() {
    assert_eq!(eval_str("let x = 5\nlet y = 3\nx = y + 1\nx").unwrap(), 4);
}
