//! Tests for the two compact calculators: the fallible `number op number`
//! reader with its evaluator, and the earliest fixed-form reader.

use klug::env::Value;
use klug::expr;

#[test]
fn expr_parse_number() {
    assert_eq!(expr::Number::new("123"), Ok(("", expr::Number(123))));
}

#[test]
fn expr_parse_add() {
    assert_eq!(expr::Op::new("+"), Ok(("", expr::Op::Plus)));
}

#[test]
fn expr_parse_mult() {
    assert_eq!(expr::Op::new("*"), Ok(("", expr::Op::Mult)));
}

#[test]
fn expr_parse_sub() {
    assert_eq!(expr::Op::new("-"), Ok(("", expr::Op::Sub)));
}

#[test]
fn expr_parse_div() {
    assert_eq!(expr::Op::new("/"), Ok(("", expr::Op::Div)));
}

#[test]
fn expr_parse_expr1plus2() {
    assert_eq!(
        expr::Expr::new("1+2"),
        Ok((
            "",
            expr::Expr::Operation {
                lhs: expr::Number(1),
                rhs: expr::Number(2),
                op: expr::Op::Plus,
            },
        )),
    );
}

#[test]
fn parse_expr_with_whitespace() {
    assert_eq!(
        expr::Expr::new("2 * 2"),
        Ok((
            "",
            expr::Expr::Operation {
                lhs: expr::Number(2),
                rhs: expr::Number(2),
                op: expr::Op::Mult,
            },
        )),
    );
}

#[test]
fn parse_number_as_expr() {
    assert_eq!(expr::Expr::new("456"), Ok(("", expr::Expr::Number(expr::Number(456)))));
}

#[test]
fn eval_add() {
    assert_eq!(
        expr::Expr::Operation { lhs: expr::Number(10), rhs: expr::Number(10), op: expr::Op::Plus }
            .eval(),
        Value::Number(20),
    );
}

#[test]
fn eval_sub() {
    assert_eq!(
        expr::Expr::Operation { lhs: expr::Number(1), rhs: expr::Number(5), op: expr::Op::Sub }
            .eval(),
        Value::Number(-4),
    );
}

#[test]
fn eval_mul() {
    assert_eq!(
        expr::Expr::Operation { lhs: expr::Number(5), rhs: expr::Number(6), op: expr::Op::Mult }
            .eval(),
        Value::Number(30),
    );
}

#[test]
fn eval_div() {
    assert_eq!(
        expr::Expr::Operation { lhs: expr::Number(200), rhs: expr::Number(20), op: expr::Op::Div }
            .eval(),
        Value::Number(10),
    );
}

#[test]
fn lib_parse_number() {
    assert_eq!(klug::Number::new("123"), ("", klug::Number(123)));
}

#[test]
fn lib_parse_add() {
    assert_eq!(klug::Op::new("+"), ("", klug::Op::Plus));
}

#[test]
fn lib_parse_mult() {
    assert_eq!(klug::Op::new("*"), ("", klug::Op::Mult));
}

#[test]
fn lib_parse_sub() {
    assert_eq!(klug::Op::new("-"), ("", klug::Op::Sub));
}

#[test]
fn lib_parse_div() {
    assert_eq!(klug::Op::new("/"), ("", klug::Op::Div));
}

#[test]
fn lib_parse_expr1plus2() {
    assert_eq!(
        klug::Expr::new("1+2"),
        ("", klug::Expr { lhs: klug::Number(1), rhs: klug::Number(2), op: klug::Op::Plus }),
    );
}
