//! End-to-end scenarios: one line of source per turn against a shared
//! environment, as the interactive shell drives the library.

use klug::ast::{Expr, InfixOp, Literal};
use klug::diag::DiagKind;
use klug::env::{Env, Value};

#[test]
fn it_works() {
    assert_eq!(2 + 2, 4);
}

#[test]
fn scenario_precedence() {
    let mut env = Env::new();
    assert_eq!(klug::run("1 + 2 * 3", &mut env), Ok(Some(Value::Number(7))));
}

#[test]
fn scenario_grouping() {
    let mut env = Env::new();
    assert_eq!(klug::run("(1 + 2) * 3", &mut env), Ok(Some(Value::Number(9))));
}

#[test]
fn scenario_let_then_use() {
    let mut env = Env::new();
    assert_eq!(klug::run("let x = 10", &mut env), Ok(None));
    assert_eq!(klug::run("x + 5", &mut env), Ok(Some(Value::Number(15))));
}

#[test]
fn scenario_function_call() {
    let mut env = Env::new();
    assert_eq!(klug::run("fn square n => n * n", &mut env), Ok(None));
    assert_eq!(klug::run("square 6", &mut env), Ok(Some(Value::Number(36))));
}

#[test]
fn scenario_wrong_arity() {
    let mut env = Env::new();
    assert_eq!(klug::run("fn square n => n * n", &mut env), Ok(None));
    let d = klug::run("square 6 7", &mut env).unwrap_err();
    assert_eq!(d.kind, DiagKind::ArityError);
    assert_eq!(d.message(), "wrong arity");
}

#[test]
fn scenario_unbound_name() {
    let mut env = Env::new();
    let d = klug::run("missing", &mut env).unwrap_err();
    assert_eq!(d.kind, DiagKind::NameError);
    assert_eq!(d.message(), "missing not bound");
}

#[test]
fn scenario_division_by_zero() {
    let mut env = Env::new();
    let d = klug::run("10 / 0", &mut env).unwrap_err();
    assert_eq!(d.kind, DiagKind::DivisionByZero);
    assert_eq!(d.message(), "division by zero");
}

#[test]
fn scenario_unary_operators() {
    let mut env = Env::new();
    assert_eq!(klug::run("!true", &mut env), Ok(Some(Value::Bool(false))));
    assert_eq!(klug::run("-5 + 20", &mut env), Ok(Some(Value::Number(15))));
}

#[test]
fn scenario_string_literal() {
    let mut env = Env::new();
    assert_eq!(
        klug::run("'hello'", &mut env),
        Ok(Some(Value::Str("hello".to_string()))),
    );
}

#[test]
fn scenario_grouping_is_transparent() {
    // wrapping the printed form of an expression in parentheses changes
    // nothing about its value
    let e = Expr::Binary(
        Box::new(Expr::Literal(Literal::NUMBER(2))),
        InfixOp::Add,
        Box::new(Expr::Binary(
            Box::new(Expr::Literal(Literal::NUMBER(3))),
            InfixOp::Mul,
            Box::new(Expr::Literal(Literal::NUMBER(4))),
        )),
    );
    let printed = e.stringify();
    assert_eq!(printed, "2 + 3 * 4".to_string());
    let wrapped = format!("({})", printed);
    let mut env1 = Env::new();
    let mut env2 = Env::new();
    assert_eq!(
        klug::run(&printed, &mut env1),
        klug::run(&wrapped, &mut env2),
    );
}

#[test]
fn scenario_malformed_inputs_return_diagnostics() {
    // a sample of malformed ASCII lines: every one comes back as a
    // diagnostic, never a crash
    let inputs = [
        "", "(", ")", "((((", "let", "let =", "let x =", "fn", "fn =>", "1 +", "+ 1", "'open",
        "# # #", "} {", "1 2 3 }", "let let = 1", "fn fn fn", "!", "--", "10 /",
    ];
    let mut env = Env::new();
    for input in inputs {
        let _ = klug::run(input, &mut env);
    }
}

#[test]
fn scenario_multiline_program() {
    let mut env = Env::new();
    assert_eq!(
        klug::run("let a = 2\nlet b = 3\na * b", &mut env),
        Ok(Some(Value::Number(6))),
    );
}

#[test]
fn scenario_pretty_printing() {
    let decls = klug::parse("let a = 10 / 2").unwrap().declarations;
    assert_eq!(decls[0].stringify(), "let a = 10 / 2".to_string());
    let decls = klug::parse("fn add x y => x + y").unwrap().declarations;
    assert_eq!(decls[0].stringify(), "fn add x y => x + y".to_string());
    let decls = klug::parse("square (7 - 2)").unwrap().declarations;
    assert_eq!(decls[0].stringify(), "square ( 7 - 2 )".to_string());
}

#[test]
fn scenario_stringify_negative_number() {
    assert_eq!(Literal::NUMBER(-45).stringify(), "-45".to_string());
    assert_eq!(Literal::NUMBER(0).stringify(), "0".to_string());
    assert_eq!(Literal::NUMBER(1234567890).stringify(), "1234567890".to_string());
}

#[test]
fn scenario_calls_see_caller_scope() {
    let mut env = Env::new();
    assert_eq!(klug::run("let k = 10", &mut env), Ok(None));
    assert_eq!(klug::run("fn addk n => n + k", &mut env), Ok(None));
    assert_eq!(klug::run("addk 5", &mut env), Ok(Some(Value::Number(15))));
}

#[test]
fn scenario_left_associativity() {
    let mut env = Env::new();
    assert_eq!(klug::run("10 - 4 - 3", &mut env), Ok(Some(Value::Number(3))));
    assert_eq!(klug::run("100 / 10 / 5", &mut env), Ok(Some(Value::Number(2))));
}

#[test]
fn scenario_parse_is_deterministic() {
    let a = klug::parse("let x = 1 + 2 * 3");
    let b = klug::parse("let x = 1 + 2 * 3");
    assert_eq!(a, b);
}

#[test]
fn scenario_errors_surface_left_to_right() {
    // the left operand's error wins over the right operand's
    let mut env = Env::new();
    let d = klug::run("1 / 0 + missing", &mut env).unwrap_err();
    assert_eq!(d.kind, DiagKind::DivisionByZero);
    let d = klug::run("missing + 1 / 0", &mut env).unwrap_err();
    assert_eq!(d.kind, DiagKind::NameError);
}

#[test]
fn scenario_bindings_before_an_error_remain() {
    let mut env = Env::new();
    let d = klug::run("let a = 1\nlet b = missing\nlet c = 2", &mut env).unwrap_err();
    assert_eq!(d.message(), "missing not bound");
    assert_eq!(klug::run("a", &mut env), Ok(Some(Value::Number(1))));
    let d = klug::run("c", &mut env).unwrap_err();
    assert_eq!(d.message(), "c not bound");
}

