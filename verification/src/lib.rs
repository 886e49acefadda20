//! Klug: a small interactive language. The crate lexes a source line into
//! tokens, parses it with a Pratt expression parser into declarations, and
//! evaluates the tree against a lexically scoped environment. The lexer,
//! the parser and the evaluator are each proved equal to a mathematical
//! model, and the language's laws are proved over those models.

pub mod ast;
pub mod diag;
pub mod env;
pub mod expr;
pub mod interp;
pub mod lexer;
pub mod parser;
pub mod scan;
pub mod use_bind;
pub mod utils;

use vstd::prelude::*;

use crate::ast::digits_val;
use crate::diag::{Diagnostic, SpecDiag};
use crate::env::{Env, SpecEnv, SpecValue, Value};
use crate::interp::{EVAL_FUEL, eval_block_s};
use crate::expr::{after, num_parse};
use crate::parser::{Parse, Parser, spec_parse};
use crate::utils::{CharPred, is_op_char, lemma_pred_run_bound, lemma_pred_run_chars, pred_run};

verus! {

/// The model of a run result.
pub open spec fn run_res_view(r: Result<Option<Value>, Diagnostic>) -> Result<
    Option<SpecValue>,
    SpecDiag,
> {
    match r {
        Ok(None) => Ok(None),
        Ok(Some(v)) => Ok(Some(v@)),
        Err(d) => Err(d@),
    }
}

/// What one line does to an environment: parse, then evaluate; a Unit
/// result becomes "no result". On a parse error the environment is
/// untouched; on a runtime error the bindings made before it remain.
pub open spec fn spec_run(input: Seq<char>, env: SpecEnv) -> (Result<
    Option<SpecValue>,
    SpecDiag,
>, SpecEnv) {
    match spec_parse(input) {
        Err(d) => (Err(d), env),
        Ok(ds) => {
            let (r, env2) = eval_block_s(ds, env, EVAL_FUEL as nat);
            match r {
                Err(d) => (Err(d), env2),
                Ok(v) => (
                    Ok(
                        if v == SpecValue::Unit {
                            None
                        } else {
                            Some(v)
                        },
                    ),
                    env2,
                ),
            }
        },
    }
}

/// The operator a character denotes, in the fixed-form calculator.
pub open spec fn char_op(c: char) -> Op {
    if c == '+' {
        Op::Plus
    } else if c == '-' {
        Op::Sub
    } else if c == '*' {
        Op::Mult
    } else {
        Op::Div
    }
}

/// The fixed form `NUMBER op NUMBER`, with no whitespace.
pub open spec fn fixed_form(s: Seq<char>) -> Option<(nat, Op, nat, Seq<char>)> {
    match num_parse(s) {
        None => None,
        Some((a, s1)) => {
            if s1.len() >= 1 && is_op_char(s1[0]) {
                match num_parse(after(s1, 1)) {
                    None => None,
                    Some((b, s5)) => Some((a, char_op(s1[0]), b, s5)),
                }
            } else {
                None
            }
        },
    }
}

/// The earliest calculator's expression: exactly one operation on two
/// numbers, written without whitespace.
#[derive(Debug, PartialEq)]
pub struct Expr {
    pub lhs: Number,
    pub rhs: Number,
    pub op: Op,
}

/// The earliest calculator's number: a 32-bit integer.
#[derive(Debug, PartialEq)]
pub struct Number(pub i32);

/// The earliest calculator's operator.
#[derive(Debug, Clone, Copy, PartialEq, Eq, Structural)]
pub enum Op {
    Plus,
    Mult,
    Sub,
    Div,
}

impl Number {
    /// Read the number at the front; the string must begin with digits
    /// and the number must fit the 32-bit type.
    pub fn new<'a>(s: &'a str) -> (r: (&'a str, Number))
        requires
            match num_parse(s@) {
                None => false,
                Some((a, _)) => a <= i32::MAX,
            },
        ensures
            r.1.0 >= 0,
            num_parse(s@) == Some((r.1.0 as nat, r.0@)),
    {
        proof {
            lemma_pred_run_bound(s@, 0, CharPred::Digit);
            lemma_pred_run_chars(s@, 0, CharPred::Digit);
        }
        let (num, rest) = crate::scan::extract_digits(s);
        (rest, Number(crate::expr::digits_to_i32(num)))
    }
}

impl Op {
    /// Read the operator at the front; the string must begin with one.
    pub fn new<'a>(s: &'a str) -> (r: (&'a str, Op))
        requires
            s@.len() >= 1,
            is_op_char(s@[0]),
        ensures
            r.0@ == s@.subrange(1, s@.len() as int),
            r.1 == char_op(s@[0]),
    {
        let (op, rest) = crate::scan::extract_op(s);
        proof {
            assert(op@[0] == s@[0]);
        }
        let c = op.get_char(0);
        let o = if c == '+' {
            Op::Plus
        } else if c == '-' {
            Op::Sub
        } else if c == '*' {
            Op::Mult
        } else {
            Op::Div
        };
        (rest, o)
    }
}

impl Expr {
    /// Read `NUMBER op NUMBER`; the string must hold that shape with
    /// numbers that fit the 32-bit type.
    pub fn new<'a>(s: &'a str) -> (r: (&'a str, Expr))
        requires
            match num_parse(s@) {
                None => false,
                Some((a, s1)) => a <= i32::MAX && s1.len() >= 1 && is_op_char(s1[0]) && (
                match num_parse(after(s1, 1)) {
                    None => false,
                    Some((b, _)) => b <= i32::MAX,
                }),
            },
        ensures
            r.1.lhs.0 >= 0,
            r.1.rhs.0 >= 0,
            fixed_form(s@) == Some((r.1.lhs.0 as nat, r.1.op, r.1.rhs.0 as nat, r.0@)),
    {
        let (s, lhs) = Number::new(s);
        let (s, op) = Op::new(s);
        let (s, rhs) = Number::new(s);
        (s, Expr { lhs, rhs, op })
    }
}

/// Parse a source string to a program.
pub fn parse(source: &str) -> (r: Result<Parse, Diagnostic>)
    ensures
        match r {
            Ok(pr) => spec_parse(source@) == Ok::<Seq<crate::ast::SpecDecl>, SpecDiag>(pr@),
            Err(d) => spec_parse(source@) == Err::<Seq<crate::ast::SpecDecl>, SpecDiag>(d@),
        },
{
    match Parser::new(source).parse() {
        Ok(pr) => Ok(pr),
        Err(e) => Err(e.into_diagnostic()),
    }
}

/// Run one line of source against the environment: parse it, evaluate it,
/// and either hand back a value (or "no result") or a diagnostic. This
/// never panics: every outcome is a returned value.
pub fn run(source: &str, env: &mut Env) -> (r: Result<Option<Value>, Diagnostic>)
    requires
        old(env).wf(),
    ensures
        final(env).wf(),
        run_res_view(r) == spec_run(source@, old(env)@).0,
        final(env)@ == spec_run(source@, old(env)@).1,
{
    let pr = match parse(source) {
        Err(d) => {
            return Err(d);
        },
        Ok(pr) => pr,
    };
    let v = match crate::interp::evaluate(&pr, env) {
        Err(d) => {
            return Err(d);
        },
        Ok(v) => v,
    };
    match v {
        Value::Unit => Ok(None),
        other => Ok(Some(other)),
    }
}

} // verus!
