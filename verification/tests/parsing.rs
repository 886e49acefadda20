//! Tests for the Pratt expression parser, the declaration parser, and the
//! literal readers.

use klug::ast::{Decl, Expr, InfixOp, Literal, PrefixOp, Stmt, new_literal};
use klug::parser::Parser;
use klug::use_bind::BindingUsage;

fn check(input: &str, expected: Expr) {
    let mut p = Parser::new(input);
    let e = Expr::new(&mut p).unwrap();
    assert_eq!(e, expected);
}

fn parsed(input: &str) -> Vec<Decl> {
    klug::parse(input).unwrap().declarations
}

#[test]
fn parse_num() {
    check("5", Expr::Literal(Literal::NUMBER(5)));
}

#[test]
fn parse_bool() {
    check("false", Expr::Literal(Literal::FALSE));
}

#[test]
fn simple_binary() {
    check(
        "1 + 2",
        Expr::Binary(
            Box::new(Expr::Literal(Literal::NUMBER(1))),
            InfixOp::Add,
            Box::new(Expr::Literal(Literal::NUMBER(2))),
        ),
    );
}

#[test]
fn simple_compound() {
    check(
        "1 + 2 - 4",
        Expr::Binary(
            Box::new(Expr::Binary(
                Box::new(Expr::Literal(Literal::NUMBER(1))),
                InfixOp::Add,
                Box::new(Expr::Literal(Literal::NUMBER(2))),
            )),
            InfixOp::Sub,
            Box::new(Expr::Literal(Literal::NUMBER(4))),
        ),
    );
}

#[test]
fn simple_precedence1() {
    check(
        "1 + 2 * 4",
        Expr::Binary(
            Box::new(Expr::Literal(Literal::NUMBER(1))),
            InfixOp::Add,
            Box::new(Expr::Binary(
                Box::new(Expr::Literal(Literal::NUMBER(2))),
                InfixOp::Mul,
                Box::new(Expr::Literal(Literal::NUMBER(4))),
            )),
        ),
    );
}

#[test]
fn simple_precedence2() {
    check(
        "1 * 2 - 4",
        Expr::Binary(
            Box::new(Expr::Binary(
                Box::new(Expr::Literal(Literal::NUMBER(1))),
                InfixOp::Mul,
                Box::new(Expr::Literal(Literal::NUMBER(2))),
            )),
            InfixOp::Sub,
            Box::new(Expr::Literal(Literal::NUMBER(4))),
        ),
    );
}

#[test]
fn simple_grouping() {
    check(
        "1 * (2 + 2) / 4",
        Expr::Binary(
            Box::new(Expr::Binary(
                Box::new(Expr::Literal(Literal::NUMBER(1))),
                InfixOp::Mul,
                Box::new(Expr::Grouping(Box::new(Expr::Binary(
                    Box::new(Expr::Literal(Literal::NUMBER(2))),
                    InfixOp::Add,
                    Box::new(Expr::Literal(Literal::NUMBER(2))),
                )))),
            )),
            InfixOp::Div,
            Box::new(Expr::Literal(Literal::NUMBER(4))),
        ),
    );
}

#[test]
fn unary_expr_minus() {
    check(
        "-10 + 20",
        Expr::Binary(
            Box::new(Expr::Unary(PrefixOp::Neg, Box::new(Expr::Literal(Literal::NUMBER(10))))),
            InfixOp::Add,
            Box::new(Expr::Literal(Literal::NUMBER(20))),
        ),
    );
}

#[test]
fn unary_expr_bang() {
    check(
        "!true + false",
        Expr::Binary(
            Box::new(Expr::Unary(PrefixOp::Not, Box::new(Expr::Literal(Literal::TRUE)))),
            InfixOp::Add,
            Box::new(Expr::Literal(Literal::FALSE)),
        ),
    );
}

#[test]
fn parse_string_literal() {
    check("'hello world'", Expr::Literal(Literal::STRING("hello world".to_string())));
}

#[test]
fn parse_binding_usage() {
    assert_eq!(
        BindingUsage::new("abc"),
        Ok(("", BindingUsage { name: "abc".to_string() })),
    );
}

#[test]
fn parse_empty_block() {
    assert_eq!(parsed("{}"), vec![Decl::Stmt(Stmt::Expr(Expr::Block(Vec::new())))]);
}

#[test]
fn parse_empty_block_with_whitespace() {
    assert_eq!(parsed("{   }"), vec![Decl::Stmt(Stmt::Expr(Expr::Block(Vec::new())))]);
}

#[test]
fn parse_block_with_one_stmt() {
    assert_eq!(
        parsed("{ 5 }"),
        vec![Decl::Stmt(Stmt::Expr(Expr::Block(vec![Decl::Stmt(Stmt::Expr(Expr::Literal(
            Literal::NUMBER(5),
        )))])))],
    );
}

#[test]
fn parse_block_with_multiple_stmts() {
    assert_eq!(
        parsed("{ let a = 10 \n let b = a \n b \n}"),
        vec![Decl::Stmt(Stmt::Expr(Expr::Block(vec![
            Decl::Let { name: "a".to_string(), init: Expr::Literal(Literal::NUMBER(10)) },
            Decl::Let {
                name: "b".to_string(),
                init: Expr::Literal(Literal::IDENT("a".to_string())),
            },
            Decl::Stmt(Stmt::Expr(Expr::Literal(Literal::IDENT("b".to_string())))),
        ])))],
    );
}

#[test]
fn parse_func_def() {
    assert_eq!(
        parsed("fn identity x => x"),
        vec![Decl::Func {
            name: "identity".to_string(),
            params: vec!["x".to_string()],
            body: Stmt::Expr(Expr::Literal(Literal::IDENT("x".to_string()))),
        }],
    );
}

#[test]
fn parse_func_def_with_no_params_and_empty_body() {
    assert_eq!(
        parsed("fn nothing => {}"),
        vec![Decl::Func {
            name: "nothing".to_string(),
            params: Vec::new(),
            body: Stmt::Expr(Expr::Block(Vec::new())),
        }],
    );
}

#[test]
fn parse_func_def_with_one_param_and_empty_body() {
    assert_eq!(
        parsed("fn greet name => {}"),
        vec![Decl::Func {
            name: "greet".to_string(),
            params: vec!["name".to_string()],
            body: Stmt::Expr(Expr::Block(Vec::new())),
        }],
    );
}

#[test]
fn parse_func_def_with_multiple_params() {
    assert_eq!(
        parsed("fn add x y => x + y"),
        vec![Decl::Func {
            name: "add".to_string(),
            params: vec!["x".to_string(), "y".to_string()],
            body: Stmt::Expr(Expr::Binary(
                Box::new(Expr::Literal(Literal::IDENT("x".to_string()))),
                InfixOp::Add,
                Box::new(Expr::Literal(Literal::IDENT("y".to_string()))),
            )),
        }],
    );
}

#[test]
fn parse_func_call_with_one_parameter() {
    assert_eq!(
        parsed("factorial 10"),
        vec![Decl::Stmt(Stmt::Expr(Expr::Call {
            callee: "factorial".to_string(),
            args: vec![Expr::Literal(Literal::NUMBER(10))],
        }))],
    );
}

#[test]
fn stmt_parse_binding_def() {
    assert_eq!(
        parsed("let a = 10"),
        vec![Decl::Let { name: "a".to_string(), init: Expr::Literal(Literal::NUMBER(10)) }],
    );
}

#[test]
fn binding_def_parse_binding_def() {
    assert_eq!(
        parsed("let a = 10 / 2"),
        vec![Decl::Let {
            name: "a".to_string(),
            init: Expr::Binary(
                Box::new(Expr::Literal(Literal::NUMBER(10))),
                InfixOp::Div,
                Box::new(Expr::Literal(Literal::NUMBER(2))),
            ),
        }],
    );
}

#[test]
fn stmt_parse_expr() {
    assert_eq!(
        parsed("1+1"),
        vec![Decl::Stmt(Stmt::Expr(Expr::Binary(
            Box::new(Expr::Literal(Literal::NUMBER(1))),
            InfixOp::Add,
            Box::new(Expr::Literal(Literal::NUMBER(1))),
        )))],
    );
}

#[test]
fn literal_string() {
    let s = "var";
    assert_eq!(new_literal(s), Literal::STRING("var".to_string()));
}

#[test]
fn literal_num() {
    let s = "5";
    assert_eq!(new_literal(s), Literal::NUMBER(5));
}

#[test]
fn literal_true() {
    let s = "true";
    assert_eq!(new_literal(s), Literal::TRUE);
}

#[test]
fn literal_false() {
    let s = "false";
    assert_eq!(new_literal(s), Literal::FALSE);
}

#[test]
fn parse_let_without_initialiser_is_an_error() {
    let d = klug::parse("let a").unwrap_err();
    assert_eq!(d.message(), "let without initialiser");
}

#[test]
fn parse_unclosed_paren_is_an_error() {
    let d = klug::parse("(1 + 2").unwrap_err();
    assert_eq!(d.message(), "expected )");
}

#[test]
fn parse_number_too_large_is_an_error() {
    let d = klug::parse("99999999999999999999").unwrap_err();
    assert_eq!(d.message(), "number literal too large");
}

#[test]
fn parse_unrecognised_input_is_a_lex_error() {
    let d = klug::parse("1 + #").unwrap_err();
    assert_eq!(d.kind, klug::diag::DiagKind::LexError);
    assert_eq!(d.message(), "unrecognised input: #");
}
