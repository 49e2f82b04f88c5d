use tiny_calc::ast::Expr;
use tiny_calc::error::{Error, ParseErrorKind};
use tiny_calc::lexer::tokenize;
use tiny_calc::parser::{parse, Parser};

fn parse_line(source: &str) -> Result<Expr, Error> {
    let tokens = tokenize(source)?;
    let mut p = Parser { tokens, n: 0 };
    parse(&mut p)
}

#[test]
fn parses_single_addition() {
    let e = parse_line("1 + 2").unwrap();
    match e {
        Expr::Add { left, right } => {
            assert!(matches!(*left, Expr::Number { n: 1 }));
            assert!(matches!(*right, Expr::Number { n: 2 }));
        }
        other => panic!("expected an addition, got {:?}", other),
    }
}

#[test]
fn parses_assignment() {
    let e = parse_line("x = 5").unwrap();
    match e {
        Expr::Assign { location, value } => {
            match *location {
                Expr::Variable { name } => assert_eq!(name, "x"),
                other => panic!("expected a variable target, got {:?}", other),
            }
            assert!(matches!(*value, Expr::Number { n: 5 }));
        }
        other => panic!("expected an assignment, got {:?}", other),
    }
}

#[test]
fn parses_chained_assignment_to_the_right() {
    let e = parse_line("a = b = 3").unwrap();
    match e {
        Expr::Assign { location, value } => {
            assert!(matches!(*location, Expr::Variable { .. }));
            match *value {
                Expr::Assign { location, value } => {
                    assert!(matches!(*location, Expr::Variable { .. }));
                    assert!(matches!(*value, Expr::Number { n: 3 }));
                }
                other => panic!("expected a nested assignment, got {:?}", other),
            }
        }
        other => panic!("expected an assignment, got {:?}", other),
    }
}

#[test]
fn rejects_chained_binary_operators() {
    assert_eq!(
        parse_line("1 + 2 + 3").unwrap_err(),
        Error::ParseError(ParseErrorKind::TrailingTokens)
    );
}

#[test]
fn parses_parenthesized_left_operand() {
    let e = parse_line("(1 + 2) * 3").unwrap();
    match e {
        Expr::Mul { left, right } => {
            match *left {
                Expr::Add { left, right } => {
                    assert!(matches!(*left, Expr::Number { n: 1 }));
                    assert!(matches!(*right, Expr::Number { n: 2 }));
                }
                other => panic!("expected a parenthesized addition, got {:?}", other),
            }
            assert!(matches!(*right, Expr::Number { n: 3 }));
        }
        other => panic!("expected a multiplication, got {:?}", other),
    }
}

#[test]
fn rejects_unbalanced_parenthesis() {
    assert_eq!(
        parse_line("(1 + 2").unwrap_err(),
        Error::ParseError(ParseErrorKind::UnclosedParen)
    );
}

#[test]
fn parses_nested_parentheses() {
    let e = parse_line("((7))").unwrap();
    assert!(matches!(e, Expr::Number { n: 7 }));
}

#[test]
fn rejects_empty_input() {
    assert_eq!(
        parse_line("").unwrap_err(),
        Error::ParseError(ParseErrorKind::UnexpectedToken)
    );
}

#[test]
fn rejects_operator_without_left_term() {
    assert_eq!(
        parse_line("+ 1").unwrap_err(),
        Error::ParseError(ParseErrorKind::UnexpectedToken)
    );
}

#[test]
fn rejects_number_beyond_i32() {
    assert_eq!(
        parse_line("99999999999").unwrap_err(),
        Error::ParseError(ParseErrorKind::NumberTooLarge)
    );
}

#[test]
fn parses_largest_i32_literal() {
    let e = parse_line("2147483647").unwrap();
    assert!(matches!(e, Expr::Number { n: 2147483647 }));
}

#[test]
fn accepts_assignment_to_non_variable_target() {
    let e = parse_line("1 = 2").unwrap();
    match e {
        Expr::Assign { location, value } => {
            assert!(matches!(*location, Expr::Number { n: 1 }));
            assert!(matches!(*value, Expr::Number { n: 2 }));
        }
        other => panic!("expected an assignment, got {:?}", other),
    }
}
