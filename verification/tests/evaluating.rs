//! Tests for the evaluator: literals, arithmetic, blocks, the environment
//! and function calls.

use klug::ast::{Decl, Expr, InfixOp, Literal, PrefixOp, Stmt};
use klug::diag::{DiagKind, Diagnostic};
use klug::env::{Env, Value};
use klug::interp::{EVAL_FUEL, interp_expr};

fn eval(e: &Expr) -> Result<Value, Diagnostic> {
    let mut env = Env::new();
    interp_expr(e, &mut env, EVAL_FUEL)
}

fn num(n: i64) -> Expr {
    Expr::Literal(Literal::NUMBER(n))
}

#[test]
fn interp_num() {
    assert_eq!(eval(&num(5)).unwrap(), Value::Number(5));
}

#[test]
fn interp_bool() {
    assert_eq!(eval(&Expr::Literal(Literal::FALSE)).unwrap(), Value::Bool(false));
}

#[test]
fn interp_simple_binary() {
    assert_eq!(
        eval(&Expr::Binary(Box::new(num(1)), InfixOp::Add, Box::new(num(2)))).unwrap(),
        Value::Number(3),
    );
}

#[test]
fn interp_simple_compound() {
    assert_eq!(
        eval(&Expr::Binary(
            Box::new(Expr::Binary(Box::new(num(1)), InfixOp::Add, Box::new(num(2)))),
            InfixOp::Sub,
            Box::new(num(4)),
        ))
        .unwrap(),
        Value::Number(-1),
    );
}

#[test]
fn interp_simple_precedence1() {
    assert_eq!(
        eval(&Expr::Binary(
            Box::new(num(1)),
            InfixOp::Add,
            Box::new(Expr::Binary(Box::new(num(2)), InfixOp::Mul, Box::new(num(4)))),
        ))
        .unwrap(),
        Value::Number(9),
    );
}

#[test]
fn interp_simple_precedence2() {
    assert_eq!(
        eval(&Expr::Binary(
            Box::new(Expr::Binary(Box::new(num(1)), InfixOp::Mul, Box::new(num(2)))),
            InfixOp::Sub,
            Box::new(num(4)),
        ))
        .unwrap(),
        Value::Number(-2),
    );
}

#[test]
fn interp_simple_grouping() {
    assert_eq!(
        eval(&Expr::Binary(
            Box::new(Expr::Binary(
                Box::new(num(1)),
                InfixOp::Mul,
                Box::new(Expr::Grouping(Box::new(Expr::Binary(
                    Box::new(num(2)),
                    InfixOp::Add,
                    Box::new(num(2)),
                )))),
            )),
            InfixOp::Div,
            Box::new(num(4)),
        ))
        .unwrap(),
        Value::Number(1),
    );
}

#[test]
fn interp_unary_expr_minus() {
    assert_eq!(
        eval(&Expr::Binary(
            Box::new(Expr::Unary(PrefixOp::Neg, Box::new(num(10)))),
            InfixOp::Add,
            Box::new(num(20)),
        ))
        .unwrap(),
        Value::Number(10),
    );
}

#[test]
fn interp_unary_expr_bang() {
    assert_eq!(
        eval(&Expr::Unary(PrefixOp::Not, Box::new(Expr::Literal(Literal::TRUE)))).unwrap(),
        Value::Bool(false),
    );
}

#[test]
fn eval_empty_block() {
    assert_eq!(eval(&Expr::Block(Vec::new())).unwrap(), Value::Unit);
}

#[test]
fn eval_block_with_multiple_binding_defs() {
    assert_eq!(
        eval(&Expr::Block(vec![
            Decl::Let { name: "foo".to_string(), init: num(5) },
            Decl::Let { name: "bar".to_string(), init: num(4) },
            Decl::Let { name: "baz".to_string(), init: num(3) },
        ]))
        .unwrap(),
        Value::Unit,
    );
}

#[test]
fn eval_block_with_multiple_exprs() {
    assert_eq!(
        eval(&Expr::Block(vec![
            Decl::Stmt(Stmt::Expr(num(100))),
            Decl::Stmt(Stmt::Expr(num(30))),
            Decl::Stmt(Stmt::Expr(Expr::Binary(
                Box::new(num(10)),
                InfixOp::Sub,
                Box::new(num(7)),
            ))),
        ]))
        .unwrap(),
        Value::Number(3),
    );
}

#[test]
fn eval_existing_binding_usage() {
    let mut env = Env::new();
    env.extend_env("foo".to_string(), Value::Number(10));
    assert_eq!(env.get_binding("foo"), Ok(Value::Number(10)));
}

#[test]
fn eval_func_def() {
    let mut env = Env::new();
    let r = klug::run("fn always_return_one => 1", &mut env);
    assert_eq!(r, Ok(None));
}

#[test]
fn eval_func_call_with_too_few_parameters() {
    let mut env = Env::new();
    env.extend_env_func(
        "mul".to_string(),
        vec!["a".to_string(), "b".to_string()],
        Stmt::Expr(Expr::Binary(
            Box::new(Expr::Literal(Literal::IDENT("a".to_string()))),
            InfixOp::Mul,
            Box::new(Expr::Literal(Literal::IDENT("b".to_string()))),
        )),
    );
    assert_eq!(
        interp_expr(
            &Expr::Call { callee: "mul".to_string(), args: vec![num(100)] },
            &mut env,
            EVAL_FUEL,
        ),
        Err(Diagnostic { kind: DiagKind::ArityError, msg: "wrong arity".to_string() }),
    );
}

#[test]
fn eval_func_call_with_too_many_parameters() {
    let mut env = Env::new();
    env.extend_env_func(
        "square".to_string(),
        vec!["n".to_string()],
        Stmt::Expr(Expr::Binary(
            Box::new(Expr::Literal(Literal::IDENT("n".to_string()))),
            InfixOp::Mul,
            Box::new(Expr::Literal(Literal::IDENT("n".to_string()))),
        )),
    );
    assert_eq!(
        interp_expr(
            &Expr::Call { callee: "square".to_string(), args: vec![num(5), num(42)] },
            &mut env,
            EVAL_FUEL,
        ),
        Err(Diagnostic { kind: DiagKind::ArityError, msg: "wrong arity".to_string() }),
    );
}

#[test]
fn eval_type_error_on_negating_a_bool() {
    let d = eval(&Expr::Unary(PrefixOp::Neg, Box::new(Expr::Literal(Literal::TRUE)))).unwrap_err();
    assert_eq!(d.kind, DiagKind::TypeError);
    assert_eq!(d.message(), "type error: negate requires number");
}

#[test]
fn eval_type_error_on_bang_of_a_number() {
    let d = eval(&Expr::Unary(PrefixOp::Not, Box::new(num(1)))).unwrap_err();
    assert_eq!(d.kind, DiagKind::TypeError);
    assert_eq!(d.message(), "type error: ! requires bool");
}

#[test]
fn eval_type_error_on_mixed_operands() {
    let d = eval(&Expr::Binary(
        Box::new(num(1)),
        InfixOp::Add,
        Box::new(Expr::Literal(Literal::TRUE)),
    ))
    .unwrap_err();
    assert_eq!(d.kind, DiagKind::TypeError);
    assert_eq!(d.message(), "type error: operator requires matching numeric operands");
}

#[test]
fn eval_overflow_is_reported() {
    let d = eval(&Expr::Binary(
        Box::new(num(i64::MAX)),
        InfixOp::Add,
        Box::new(num(1)),
    ))
    .unwrap_err();
    assert_eq!(d.kind, DiagKind::RuntimeError);
    assert_eq!(d.message(), "arithmetic overflow");
}

#[test]
fn eval_lookup_of_function_as_value_is_a_name_error() {
    let mut env = Env::new();
    env.extend_env_func("f".to_string(), Vec::new(), Stmt::Expr(num(1)));
    let d = env.get_binding("f").unwrap_err();
    assert_eq!(d.kind, DiagKind::NameError);
    assert_eq!(d.message(), "f is not a value");
}

#[test]
fn eval_runaway_recursion_is_reported() {
    let mut env = Env::new();
    assert_eq!(klug::run("fn f x => f x", &mut env), Ok(None));
    let d = klug::run("f 1", &mut env).unwrap_err();
    assert_eq!(d.kind, DiagKind::RuntimeError);
    assert_eq!(d.message(), "recursion limit reached");
}

#[test]
fn eval_shadowing_is_scoped_to_the_block() {
    let mut env = Env::new();
    assert_eq!(klug::run("let x = 1", &mut env), Ok(None));
    assert_eq!(
        klug::run("{ let x = 99 \n x }", &mut env),
        Ok(Some(Value::Number(99))),
    );
    assert_eq!(klug::run("x", &mut env), Ok(Some(Value::Number(1))));
}

#[test]
fn eval_lookup_is_idempotent() {
    let mut env = Env::new();
    env.extend_env("n".to_string(), Value::Number(7));
    assert_eq!(env.get_binding("n"), env.get_binding("n"));
}
