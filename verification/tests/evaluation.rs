use tiny_calc::ast::Expr;
use tiny_calc::env::Environment;
use tiny_calc::error::{Error, EvalErrorKind, ParseErrorKind};
use tiny_calc::eval::evaluate;
use tiny_calc::lexer::tokenize;
use tiny_calc::parser::{parse, Parser};

fn run_line(source: &str, env: &mut Environment) -> Result<i32, Error> {
    let tokens = tokenize(source)?;
    let mut p = Parser { tokens, n: 0 };
    let e = parse(&mut p)?;
    evaluate(&e, env)
}

#[test]
fn evaluates_addition() {
    let mut env = Environment::new();
    assert_eq!(run_line("1 + 2", &mut env).unwrap(), 3);
}

#[test]
fn evaluates_subtraction_below_zero() {
    let mut env = Environment::new();
    assert_eq!(run_line("1 - 2", &mut env).unwrap(), -1);
}

#[test]
fn evaluates_multiplication() {
    let mut env = Environment::new();
    assert_eq!(run_line("6 * 7", &mut env).unwrap(), 42);
}

#[test]
fn assignment_binds_and_returns_the_value() {
    let mut env = Environment::new();
    assert_eq!(run_line("x = 5", &mut env).unwrap(), 5);
    assert_eq!(env.lookup("x"), Some(5));
    assert_eq!(run_line("x", &mut env).unwrap(), 5);
}

#[test]
fn assignment_overwrites_an_earlier_binding() {
    let mut env = Environment::new();
    assert_eq!(run_line("x = 1", &mut env).unwrap(), 1);
    assert_eq!(run_line("x = 2", &mut env).unwrap(), 2);
    assert_eq!(env.lookup("x"), Some(2));
}

#[test]
fn chained_assignment_binds_every_name() {
    let mut env = Environment::new();
    assert_eq!(run_line("a = b = 3", &mut env).unwrap(), 3);
    assert_eq!(env.lookup("a"), Some(3));
    assert_eq!(env.lookup("b"), Some(3));
}

#[test]
fn unbound_variable_is_a_reported_error() {
    let mut env = Environment::new();
    let e = Expr::Variable { name: "undefined_name".to_string() };
    assert_eq!(
        evaluate(&e, &mut env).unwrap_err(),
        Error::EvalError(EvalErrorKind::UnboundVariable("undefined_name".to_string()))
    );
    assert_eq!(env.lookup("undefined_name"), None);
}

#[test]
fn reading_a_variable_twice_gives_the_same_value() {
    let mut env = Environment::new();
    assert_eq!(run_line("x = 3", &mut env).unwrap(), 3);
    assert_eq!(run_line("x", &mut env).unwrap(), 3);
    assert_eq!(run_line("x", &mut env).unwrap(), 3);
}

#[test]
fn parenthesized_expression_evaluates_as_grouped() {
    let mut env = Environment::new();
    assert_eq!(run_line("(1 + 2) * 3", &mut env).unwrap(), 9);
}

#[test]
fn assignment_to_non_variable_target_fails() {
    let mut env = Environment::new();
    assert_eq!(
        run_line("1 = 2", &mut env).unwrap_err(),
        Error::EvalError(EvalErrorKind::InvalidAssignmentTarget)
    );
}

#[test]
fn addition_overflow_is_reported() {
    let mut env = Environment::new();
    assert_eq!(
        run_line("2147483647 + 1", &mut env).unwrap_err(),
        Error::EvalError(EvalErrorKind::Overflow)
    );
}

#[test]
fn multiplication_overflow_is_reported() {
    let mut env = Environment::new();
    assert_eq!(
        run_line("1000000 * 1000000", &mut env).unwrap_err(),
        Error::EvalError(EvalErrorKind::Overflow)
    );
}

#[test]
fn subtraction_overflow_is_reported() {
    let mut env = Environment::new();
    assert_eq!(run_line("m = 0 - 2147483647", &mut env).unwrap(), -2147483647);
    assert_eq!(
        run_line("m - 2", &mut env).unwrap_err(),
        Error::EvalError(EvalErrorKind::Overflow)
    );
}

#[test]
fn earlier_side_effects_survive_a_later_failure() {
    let mut env = Environment::new();
    // The inner assignment completes before the outer target is found invalid.
    assert_eq!(
        run_line("1 = (y = 4)", &mut env).unwrap_err(),
        Error::EvalError(EvalErrorKind::InvalidAssignmentTarget)
    );
    assert_eq!(env.lookup("y"), Some(4));
}

#[test]
fn variables_combine_in_arithmetic() {
    let mut env = Environment::new();
    assert_eq!(run_line("a = 4", &mut env).unwrap(), 4);
    assert_eq!(run_line("b = 5", &mut env).unwrap(), 5);
    assert_eq!(run_line("a * b", &mut env).unwrap(), 20);
}

#[test]
fn whole_pipeline_reports_stage_errors() {
    let mut env = Environment::new();
    assert_eq!(run_line("2 ? 2", &mut env).unwrap_err(), Error::LexError('?'));
    assert_eq!(
        run_line("2 * 3 + 4", &mut env).unwrap_err(),
        Error::ParseError(ParseErrorKind::TrailingTokens)
    );
}
