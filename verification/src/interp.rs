//! The evaluator: a recursive interpreter over the syntax tree, producing a
//! runtime value or a diagnostic and extending the environment with new
//! bindings.
//!
//! The executable interpreter is proved equal to the mathematical model
//! `eval_decl_s` / `eval_expr_s`. Evaluation is total: recursion through
//! user-defined function calls is bounded by a depth budget, and exhausting
//! it is reported as a diagnostic rather than by crashing.

use vstd::prelude::*;
use vstd::string::*;

use crate::ast::{
    Decl, Expr, InfixOp, Literal, PrefixOp, SpecDecl, SpecExpr, SpecLiteral, SpecStmt, Stmt,
    view_decl, view_decls, view_expr, view_exprs, view_stmt, lemma_view_decls_index,
    lemma_view_decls_len, lemma_view_exprs_index, lemma_view_exprs_len,
};
use crate::diag::{DiagKind, Diagnostic, SpecDiag};
use crate::env::{
    Env, SpecBoundInfo, SpecEnv, SpecValue, Value, env_extend, spec_get_binding, spec_get_func,
};

verus! {

/// The depth budget `run` gives the evaluator: how deep function calls may
/// nest before evaluation is cut off with a diagnostic.
pub const EVAL_FUEL: u64 = 4096;

/// The model of an executable evaluation result.
pub open spec fn res_view(r: Result<Value, Diagnostic>) -> Result<SpecValue, SpecDiag> {
    match r {
        Ok(v) => Ok(v@),
        Err(d) => Err(d@),
    }
}

/// Truncating division, the semantics of the `/` operator on numbers.
pub open spec fn trunc_div(x: int, d: int) -> int
    recommends
        d != 0,
{
    if x == 0 {
        0
    } else if x > 0 && d > 0 {
        x / d
    } else if x < 0 && d < 0 {
        ((x * -1) / (d * -1))
    } else if x < 0 {
        ((x * -1) / d) * -1
    } else {
        (x / (d * -1)) * -1
    }
}

/// What arithmetic on two numbers yields: the value, a division-by-zero
/// diagnostic, or an overflow diagnostic where the result leaves the
/// numeric type.
pub open spec fn spec_num_calc(n1: i64, n2: i64, op: InfixOp) -> Result<SpecValue, SpecDiag> {
    match op {
        InfixOp::Add => {
            if i64::MIN <= n1 + n2 <= i64::MAX {
                Ok(SpecValue::Num((n1 + n2) as i64))
            } else {
                Err(overflow_diag())
            }
        },
        InfixOp::Sub => {
            if i64::MIN <= n1 - n2 <= i64::MAX {
                Ok(SpecValue::Num((n1 - n2) as i64))
            } else {
                Err(overflow_diag())
            }
        },
        InfixOp::Mul => {
            if i64::MIN <= n1 * n2 <= i64::MAX {
                Ok(SpecValue::Num((n1 * n2) as i64))
            } else {
                Err(overflow_diag())
            }
        },
        InfixOp::Div => {
            if n2 == 0 {
                Err(SpecDiag { kind: DiagKind::DivisionByZero, msg: "division by zero"@ })
            } else if i64::MIN <= trunc_div(n1 as int, n2 as int) <= i64::MAX {
                Ok(SpecValue::Num(trunc_div(n1 as int, n2 as int) as i64))
            } else {
                Err(overflow_diag())
            }
        },
    }
}

pub open spec fn overflow_diag() -> SpecDiag {
    SpecDiag { kind: DiagKind::RuntimeError, msg: "arithmetic overflow"@ }
}

pub open spec fn depth_diag() -> SpecDiag {
    SpecDiag { kind: DiagKind::RuntimeError, msg: "recursion limit reached"@ }
}

pub open spec fn arity_diag() -> SpecDiag {
    SpecDiag { kind: DiagKind::ArityError, msg: "wrong arity"@ }
}

pub open spec fn type_diag(msg: Seq<char>) -> SpecDiag {
    SpecDiag { kind: DiagKind::TypeError, msg }
}

/// Parameters bound to argument values, left to right, in the innermost
/// scope.
pub open spec fn bind_params(env: SpecEnv, ps: Seq<Seq<char>>, vs: Seq<SpecValue>) -> SpecEnv
    recommends
        ps.len() == vs.len(),
    decreases ps.len(),
{
    if ps.len() == 0 {
        env
    } else {
        bind_params(
            env_extend(env, ps[0], SpecBoundInfo::Binding(vs[0])),
            ps.subrange(1, ps.len() as int),
            vs.subrange(1, vs.len() as int),
        )
    }
}

/// The value of an expression. Expressions never change the environment:
/// the scopes that blocks and calls open are closed again before they
/// return.
pub open spec fn eval_expr_s(e: SpecExpr, env: SpecEnv, fuel: nat) -> Result<SpecValue, SpecDiag>
    recommends
        env.len() >= 1,
    decreases fuel, e,
{
    match e {
        SpecExpr::Literal(l) => match l {
            SpecLiteral::Num(n) => Ok(SpecValue::Num(n)),
            SpecLiteral::Str(s) => Ok(SpecValue::Str(s)),
            SpecLiteral::True => Ok(SpecValue::Bool(true)),
            SpecLiteral::False => Ok(SpecValue::Bool(false)),
            SpecLiteral::Ident(name) => spec_get_binding(env, name),
        },
        SpecExpr::Unary(op, inner) => match eval_expr_s(*inner, env, fuel) {
            Err(d) => Err(d),
            Ok(v) => match (op, v) {
                (PrefixOp::Not, SpecValue::Bool(b)) => Ok(SpecValue::Bool(!b)),
                (PrefixOp::Neg, SpecValue::Num(n)) => {
                    if n == i64::MIN {
                        Err(overflow_diag())
                    } else {
                        Ok(SpecValue::Num((-n) as i64))
                    }
                },
                (PrefixOp::Not, _) => Err(type_diag("type error: ! requires bool"@)),
                (PrefixOp::Neg, _) => Err(type_diag("type error: negate requires number"@)),
            },
        },
        SpecExpr::Binary(lhs, op, rhs) => match eval_expr_s(*lhs, env, fuel) {
            Err(d) => Err(d),
            Ok(vl) => match eval_expr_s(*rhs, env, fuel) {
                Err(d) => Err(d),
                Ok(vr) => match (vl, vr) {
                    (SpecValue::Num(n1), SpecValue::Num(n2)) => spec_num_calc(n1, n2, op),
                    _ => Err(
                        type_diag("type error: operator requires matching numeric operands"@),
                    ),
                },
            },
        },
        SpecExpr::Grouping(inner) => eval_expr_s(*inner, env, fuel),
        SpecExpr::Block(ds) => {
            if ds.len() == 0 {
                Ok(SpecValue::Unit)
            } else {
                eval_block_s(ds, env.push(Seq::empty()), fuel).0
            }
        },
        SpecExpr::Call(name, args) => {
            if fuel == 0 {
                Err(depth_diag())
            } else {
                match spec_get_func(env, name) {
                    Err(d) => Err(d),
                    Ok((params, bdy)) => {
                        if args.len() != params.len() {
                            Err(arity_diag())
                        } else {
                            match eval_args_s(args, env, fuel) {
                                Err(d) => Err(d),
                                Ok(vals) => eval_stmt_s(
                                    bdy,
                                    bind_params(env.push(Seq::empty()), params, vals),
                                    (fuel - 1) as nat,
                                ),
                            }
                        }
                    },
                }
            }
        },
    }
}

/// The values of an argument list, evaluated left to right in the caller's
/// environment; the first error wins.
pub open spec fn eval_args_s(args: Seq<SpecExpr>, env: SpecEnv, fuel: nat) -> Result<
    Seq<SpecValue>,
    SpecDiag,
>
    decreases fuel, args,
{
    if args.len() == 0 {
        Ok(Seq::empty())
    } else {
        match eval_expr_s(args[0], env, fuel) {
            Err(d) => Err(d),
            Ok(v) => match eval_args_s(args.subrange(1, args.len() as int), env, fuel) {
                Err(d) => Err(d),
                Ok(rest) => Ok(seq![v] + rest),
            },
        }
    }
}

/// The value of a statement.
pub open spec fn eval_stmt_s(st: SpecStmt, env: SpecEnv, fuel: nat) -> Result<SpecValue, SpecDiag>
    decreases fuel, st,
{
    match st {
        SpecStmt::Expr(e) => eval_expr_s(e, env, fuel),
    }
}

/// The value and environment a declaration leaves: `let` and `fn` insert a
/// binding into the innermost scope and yield Unit; a bare statement yields
/// its value. On error the environment keeps what was committed before.
pub open spec fn eval_decl_s(d: SpecDecl, env: SpecEnv, fuel: nat) -> (Result<
    SpecValue,
    SpecDiag,
>, SpecEnv)
    recommends
        env.len() >= 1,
    decreases fuel, d,
{
    match d {
        SpecDecl::Let(name, init) => match eval_expr_s(init, env, fuel) {
            Err(d0) => (Err(d0), env),
            Ok(v) => (Ok(SpecValue::Unit), env_extend(env, name, SpecBoundInfo::Binding(v))),
        },
        SpecDecl::Func(name, params, bdy) => (
            Ok(SpecValue::Unit),
            env_extend(env, name, SpecBoundInfo::Func(params, bdy)),
        ),
        SpecDecl::Stmt(st) => (eval_stmt_s(st, env, fuel), env),
    }
}

/// The value of a block body: the declarations in order, the last one's
/// value; errors short-circuit, and insertions land in the innermost scope.
pub open spec fn eval_block_s(ds: Seq<SpecDecl>, env: SpecEnv, fuel: nat) -> (Result<
    SpecValue,
    SpecDiag,
>, SpecEnv)
    recommends
        env.len() >= 1,
    decreases fuel, ds,
{
    if ds.len() == 0 {
        (Ok(SpecValue::Unit), env)
    } else {
        let (r0, env1) = eval_decl_s(ds[0], env, fuel);
        match r0 {
            Err(d) => (Err(d), env1),
            Ok(v) => {
                if ds.len() == 1 {
                    (Ok(v), env1)
                } else {
                    eval_block_s(ds.subrange(1, ds.len() as int), env1, fuel)
                }
            },
        }
    }
}

/// A declaration only grows the innermost scope: every outer scope is left
/// exactly as it was.
pub proof fn lemma_decl_env_frames(d: SpecDecl, env: SpecEnv, fuel: nat)
    requires
        env.len() >= 1,
    ensures
        eval_decl_s(d, env, fuel).1.len() == env.len(),
        eval_decl_s(d, env, fuel).1.subrange(0, env.len() - 1) == env.subrange(0, env.len() - 1),
{
    match d {
        SpecDecl::Let(name, init) => {
            match eval_expr_s(init, env, fuel) {
                Err(_) => {},
                Ok(v) => {
                    assert(env_extend(env, name, SpecBoundInfo::Binding(v)).subrange(
                        0,
                        env.len() - 1,
                    ) =~= env.subrange(0, env.len() - 1));
                },
            }
        },
        SpecDecl::Func(name, params, bdy) => {
            assert(env_extend(env, name, SpecBoundInfo::Func(params, bdy)).subrange(
                0,
                env.len() - 1,
            ) =~= env.subrange(0, env.len() - 1));
        },
        SpecDecl::Stmt(_) => {},
    }
}

/// The models of a sequence of runtime values.
pub open spec fn vals_view(vs: Seq<Value>) -> Seq<SpecValue> {
    vs.map_values(|v: Value| v@)
}

/// Evaluate an expression. The environment comes back exactly as it was:
/// scopes opened for blocks and calls are closed before returning.
pub fn interp_expr(e: &Expr, env: &mut Env, fuel: u64) -> (r: Result<Value, Diagnostic>)
    requires
        old(env).wf(),
    ensures
        final(env).wf(),
        final(env)@ == old(env)@,
        res_view(r) == eval_expr_s(view_expr(*e), old(env)@, fuel as nat),
    decreases fuel, e,
{
    match e {
        Expr::Literal(l) => match l {
            Literal::NUMBER(n) => Ok(Value::Number(*n)),
            Literal::STRING(s) => Ok(Value::Str(s.clone())),
            Literal::TRUE => Ok(Value::Bool(true)),
            Literal::FALSE => Ok(Value::Bool(false)),
            Literal::IDENT(name) => env.get_binding(name.as_str()),
        },
        Expr::Unary(op, inner) => {
            let v = match interp_expr(inner, env, fuel) {
                Err(d) => {
                    return Err(d);
                },
                Ok(v) => v,
            };
            match (op, v) {
                (PrefixOp::Not, Value::Bool(b)) => Ok(Value::Bool(!b)),
                (PrefixOp::Neg, Value::Number(n)) => {
                    if n == i64::MIN {
                        Err(Diagnostic::new(DiagKind::RuntimeError, "arithmetic overflow"))
                    } else {
                        Ok(Value::Number(-n))
                    }
                },
                (PrefixOp::Not, _) => Err(
                    Diagnostic::new(DiagKind::TypeError, "type error: ! requires bool"),
                ),
                (PrefixOp::Neg, _) => Err(
                    Diagnostic::new(DiagKind::TypeError, "type error: negate requires number"),
                ),
            }
        },
        Expr::Binary(lhs, op, rhs) => {
            let vl = match interp_expr(lhs, env, fuel) {
                Err(d) => {
                    return Err(d);
                },
                Ok(v) => v,
            };
            let vr = match interp_expr(rhs, env, fuel) {
                Err(d) => {
                    return Err(d);
                },
                Ok(v) => v,
            };
            match (vl, vr) {
                (Value::Number(n1), Value::Number(n2)) => num_calc(n1, n2, *op),
                _ => Err(
                    Diagnostic::new(
                        DiagKind::TypeError,
                        "type error: operator requires matching numeric operands",
                    ),
                ),
            }
        },
        Expr::Grouping(inner) => interp_expr(inner, env, fuel),
        Expr::Block(decls) => {
            proof {
                lemma_view_decls_len(decls@);
            }
            if decls.len() == 0 {
                Ok(Value::Unit)
            } else {
                env.push_scope();
                let ghost pushed = env@;
                let r = interp_block(decls, env, fuel);
                proof {
                    assert(env@.subrange(0, env@.len() - 1) =~= pushed.subrange(
                        0,
                        pushed.len() - 1,
                    ));
                    assert(pushed.subrange(0, pushed.len() - 1) =~= old(env)@);
                }
                env.pop_scope();
                proof {
                    assert(env@ =~= old(env)@);
                }
                r
            }
        },
        Expr::Call { callee, args } => {
            if fuel == 0 {
                return Err(Diagnostic::new(DiagKind::RuntimeError, "recursion limit reached"));
            }
            let f = match env.get_func(callee.as_str()) {
                Err(d) => {
                    return Err(d);
                },
                Ok(f) => f,
            };
            let (params, bdy) = f;
            proof {
                lemma_view_exprs_len(args@);
            }
            if args.len() != params.len() {
                return Err(Diagnostic::new(DiagKind::ArityError, "wrong arity"));
            }
            let vals = match interp_args(args, env, fuel) {
                Err(d) => {
                    return Err(d);
                },
                Ok(vs) => vs,
            };
            env.push_scope();
            let ghost pushed = env@;
            let ghost psv = crate::ast::view_names(params@);
            let ghost vsv = vals_view(vals@);
            let nparams = params.len();
            let mut k: usize = 0;
            proof {
                assert(psv.subrange(0, psv.len() as int) =~= psv);
                assert(vsv.subrange(0, vsv.len() as int) =~= vsv);
            }
            while k < nparams
                invariant
                    0 <= k <= nparams,
                    nparams == params@.len(),
                    nparams == vals@.len(),
                    psv == crate::ast::view_names(params@),
                    vsv == vals_view(vals@),
                    psv.len() == nparams,
                    vsv.len() == nparams,
                    env.wf(),
                    env@.len() == pushed.len(),
                    pushed.len() >= 2,
                    env@.subrange(0, pushed.len() - 1) == pushed.subrange(0, pushed.len() - 1),
                    bind_params(pushed, psv, vsv) == bind_params(
                        env@,
                        psv.subrange(k as int, nparams as int),
                        vsv.subrange(k as int, nparams as int),
                    ),
                decreases nparams - k,
            {
                let name = params[k].clone();
                let v = vals[k].clone();
                proof {
                    assert(psv.subrange(k as int, nparams as int)[0] == psv[k as int]);
                    assert(vsv.subrange(k as int, nparams as int)[0] == vsv[k as int]);
                    assert(psv[k as int] == params@[k as int]@);
                    assert(vsv[k as int] == vals@[k as int]@);
                }
                let ghost env_before = env@;
                env.extend_env(name, v);
                proof {
                    assert(psv.subrange(k as int, nparams as int).subrange(
                        1,
                        (nparams - k) as int,
                    ) =~= psv.subrange(k + 1, nparams as int));
                    assert(vsv.subrange(k as int, nparams as int).subrange(
                        1,
                        (nparams - k) as int,
                    ) =~= vsv.subrange(k + 1, nparams as int));
                    assert(env@.subrange(0, pushed.len() - 1) =~= env_before.subrange(
                        0,
                        pushed.len() - 1,
                    ));
                }
                k = k + 1;
            }
            proof {
                assert(psv.subrange(nparams as int, nparams as int) =~= Seq::<Seq<char>>::empty());
                assert(vsv.subrange(nparams as int, nparams as int) =~= Seq::<SpecValue>::empty());
                assert(env@ == bind_params(pushed, psv, vsv));
            }
            let r = interp_stmt(&bdy, env, fuel - 1);
            proof {
                assert(env@.subrange(0, env@.len() - 1) =~= pushed.subrange(0, pushed.len() - 1));
                assert(pushed.subrange(0, pushed.len() - 1) =~= old(env)@);
            }
            env.pop_scope();
            proof {
                assert(env@ =~= old(env)@);
            }
            r
        },
    }
}

/// Evaluate an argument list left to right in the caller's environment.
fn interp_args(args: &Vec<Expr>, env: &mut Env, fuel: u64) -> (r: Result<Vec<Value>, Diagnostic>)
    requires
        old(env).wf(),
    ensures
        final(env).wf(),
        final(env)@ == old(env)@,
        match r {
            Ok(vs) => vs@.len() == args@.len() && eval_args_s(
                view_exprs(args@),
                old(env)@,
                fuel as nat,
            ) == Ok::<Seq<SpecValue>, SpecDiag>(vals_view(vs@)),
            Err(d) => eval_args_s(view_exprs(args@), old(env)@, fuel as nat) == Err::<
                Seq<SpecValue>,
                SpecDiag,
            >(d@),
        },
    decreases fuel, args,
{
    let ghost av = view_exprs(args@);
    let n = args.len();
    let mut out: Vec<Value> = Vec::new();
    let mut i: usize = 0;
    proof {
        lemma_view_exprs_len(args@);
        assert(av.subrange(0, n as int) =~= av);
        assert(vals_view(out@) =~= Seq::<SpecValue>::empty());
    }
    while i < n
        invariant
            0 <= i <= n,
            n == args@.len(),
            av == view_exprs(args@),
            av.len() == n,
            env.wf(),
            env@ == old(env)@,
            out@.len() == i,
            forall|rest: Seq<SpecValue>|
                eval_args_s(av.subrange(i as int, n as int), env@, fuel as nat) == Ok::<
                    Seq<SpecValue>,
                    SpecDiag,
                >(rest) ==> eval_args_s(av, old(env)@, fuel as nat) == Ok::<
                    Seq<SpecValue>,
                    SpecDiag,
                >(vals_view(out@) + rest),
            forall|d: SpecDiag|
                eval_args_s(av.subrange(i as int, n as int), env@, fuel as nat) == Err::<
                    Seq<SpecValue>,
                    SpecDiag,
                >(d) ==> eval_args_s(av, old(env)@, fuel as nat) == Err::<Seq<SpecValue>, SpecDiag>(
                    d,
                ),
        decreases n - i,
    {
        proof {
            lemma_view_exprs_index(args@, i as int);
            assert(av.subrange(i as int, n as int)[0] == av[i as int]);
        }
        let v = match interp_expr(&args[i], env, fuel) {
            Err(d) => {
                return Err(d);
            },
            Ok(v) => v,
        };
        proof {
            assert(av.subrange(i as int, n as int).subrange(1, (n - i) as int) =~= av.subrange(
                i + 1,
                n as int,
            ));
            assert(vals_view(out@.push(v)) =~= vals_view(out@).push(v@));
            assert forall|rest: Seq<SpecValue>|
                eval_args_s(av.subrange(i + 1, n as int), env@, fuel as nat) == Ok::<
                    Seq<SpecValue>,
                    SpecDiag,
                >(rest) implies eval_args_s(av, old(env)@, fuel as nat) == Ok::<
                Seq<SpecValue>,
                SpecDiag,
            >(vals_view(out@.push(v)) + rest) by {
                assert(eval_args_s(av.subrange(i as int, n as int), env@, fuel as nat) == Ok::<
                    Seq<SpecValue>,
                    SpecDiag,
                >(seq![v@] + rest));
                assert(vals_view(out@) + (seq![v@] + rest) =~= vals_view(out@.push(v)) + rest);
            }
        }
        out.push(v);
        i = i + 1;
    }
    proof {
        assert(av.subrange(n as int, n as int) =~= Seq::<SpecExpr>::empty());
        assert(eval_args_s(Seq::empty(), env@, fuel as nat) == Ok::<Seq<SpecValue>, SpecDiag>(
            Seq::empty(),
        ));
        assert(vals_view(out@) + Seq::<SpecValue>::empty() =~= vals_view(out@));
    }
    Ok(out)
}

/// Evaluate the declarations of a block body in order against the current
/// innermost scope; the last one's value is the block's value.
pub(crate) fn interp_block(decls: &Vec<Decl>, env: &mut Env, fuel: u64) -> (r: Result<Value, Diagnostic>)
    requires
        old(env).wf(),
    ensures
        final(env).wf(),
        res_view(r) == eval_block_s(view_decls(decls@), old(env)@, fuel as nat).0,
        final(env)@ == eval_block_s(view_decls(decls@), old(env)@, fuel as nat).1,
        final(env)@.len() == old(env)@.len(),
        final(env)@.subrange(0, old(env)@.len() - 1) == old(env)@.subrange(
            0,
            old(env)@.len() - 1,
        ),
    decreases fuel, decls,
{
    let ghost dsv = view_decls(decls@);
    let ghost l = old(env)@.len();
    let n = decls.len();
    proof {
        lemma_view_decls_len(decls@);
    }
    if n == 0 {
        return Ok(Value::Unit);
    }
    let mut i: usize = 0;
    proof {
        assert(dsv.subrange(0, n as int) =~= dsv);
    }
    while i + 1 < n
        invariant
            0 <= i < n,
            n == decls@.len(),
            dsv == view_decls(decls@),
            dsv.len() == n,
            env.wf(),
            l == old(env)@.len(),
            env@.len() == l,
            env@.subrange(0, l - 1) == old(env)@.subrange(0, l - 1),
            eval_block_s(dsv, old(env)@, fuel as nat) == eval_block_s(
                dsv.subrange(i as int, n as int),
                env@,
                fuel as nat,
            ),
        decreases n - i,
    {
        proof {
            lemma_view_decls_index(decls@, i as int);
            assert(dsv.subrange(i as int, n as int)[0] == dsv[i as int]);
            lemma_decl_env_frames(dsv[i as int], env@, fuel as nat);
        }
        let ghost env_before = env@;
        let r0 = interp_decl(&decls[i], env, fuel);
        proof {
            assert(dsv.subrange(i as int, n as int).subrange(1, (n - i) as int) =~= dsv.subrange(
                i + 1,
                n as int,
            ));
            assert(env@.subrange(0, l - 1) =~= env_before.subrange(0, l - 1));
        }
        match r0 {
            Err(d) => {
                return Err(d);
            },
            Ok(_) => {},
        }
        i = i + 1;
    }
    proof {
        lemma_view_decls_index(decls@, i as int);
        assert(dsv.subrange(i as int, n as int)[0] == dsv[i as int]);
        assert(dsv.subrange(i as int, n as int).len() == 1);
        lemma_decl_env_frames(dsv[i as int], env@, fuel as nat);
    }
    let ghost env_before = env@;
    let r = interp_decl(&decls[i], env, fuel);
    proof {
        assert(env@.subrange(0, l - 1) =~= env_before.subrange(0, l - 1));
    }
    r
}

/// Evaluate a statement.
pub fn interp_stmt(st: &Stmt, env: &mut Env, fuel: u64) -> (r: Result<Value, Diagnostic>)
    requires
        old(env).wf(),
    ensures
        final(env).wf(),
        final(env)@ == old(env)@,
        res_view(r) == eval_stmt_s(view_stmt(*st), old(env)@, fuel as nat),
    decreases fuel, st,
{
    match st {
        Stmt::Expr(e) => interp_expr(e, env, fuel),
    }
}

/// Evaluate a declaration: `let` and `fn` insert into the innermost scope
/// and yield Unit; a bare statement yields its value.
pub fn interp_decl(d: &Decl, env: &mut Env, fuel: u64) -> (r: Result<Value, Diagnostic>)
    requires
        old(env).wf(),
    ensures
        final(env).wf(),
        res_view(r) == eval_decl_s(view_decl(*d), old(env)@, fuel as nat).0,
        final(env)@ == eval_decl_s(view_decl(*d), old(env)@, fuel as nat).1,
    decreases fuel, d,
{
    match d {
        Decl::Let { name, init } => {
            let v = match interp_expr(init, env, fuel) {
                Err(d0) => {
                    return Err(d0);
                },
                Ok(v) => v,
            };
            env.extend_env(name.clone(), v);
            Ok(Value::Unit)
        },
        Decl::Func { name, params, body } => {
            env.extend_env_func(name.clone(), crate::ast::clone_names(params), body.clone());
            Ok(Value::Unit)
        },
        Decl::Stmt(st) => interp_stmt(st, env, fuel),
    }
}

/// Arithmetic on two numbers; the operand order is the source order.
pub fn num_calc(n1: i64, n2: i64, op: InfixOp) -> (r: Result<Value, Diagnostic>)
    ensures
        res_view(r) == spec_num_calc(n1, n2, op),
{
    match op {
        InfixOp::Add => match n1.checked_add(n2) {
            Some(v) => Ok(Value::Number(v)),
            None => Err(Diagnostic::new(DiagKind::RuntimeError, "arithmetic overflow")),
        },
        InfixOp::Sub => match n1.checked_sub(n2) {
            Some(v) => Ok(Value::Number(v)),
            None => Err(Diagnostic::new(DiagKind::RuntimeError, "arithmetic overflow")),
        },
        InfixOp::Mul => match n1.checked_mul(n2) {
            Some(v) => Ok(Value::Number(v)),
            None => Err(Diagnostic::new(DiagKind::RuntimeError, "arithmetic overflow")),
        },
        InfixOp::Div => {
            if n2 == 0 {
                Err(Diagnostic::new(DiagKind::DivisionByZero, "division by zero"))
            } else {
                match n1.checked_div(n2) {
                    Some(v) => Ok(Value::Number(v)),
                    None => Err(Diagnostic::new(DiagKind::RuntimeError, "arithmetic overflow")),
                }
            }
        },
    }
}

/// Evaluate a parsed program against an environment: the declarations in
/// order, the last one's value; new bindings stay in the environment, also
/// the ones made before an error.
pub fn evaluate(parse: &crate::parser::Parse, env: &mut Env) -> (r: Result<Value, Diagnostic>)
    requires
        old(env).wf(),
    ensures
        final(env).wf(),
        res_view(r) == eval_block_s(parse@, old(env)@, EVAL_FUEL as nat).0,
        final(env)@ == eval_block_s(parse@, old(env)@, EVAL_FUEL as nat).1,
{
    interp_block(&parse.declarations, env, EVAL_FUEL)
}

/// Grouping is transparent: parentheses change how source is parsed, never
/// what an expression evaluates to.
pub proof fn lemma_grouping_transparent(e: SpecExpr, env: SpecEnv, fuel: nat)
    ensures
        eval_expr_s(SpecExpr::Grouping(Box::new(e)), env, fuel) == eval_expr_s(e, env, fuel),
{
}

/// Arity is enforced: calling a function bound to n parameters with k != n
/// arguments yields exactly the wrong-arity diagnostic, whatever the
/// arguments are.
pub proof fn lemma_arity_enforced(
    name: Seq<char>,
    args: Seq<SpecExpr>,
    env: SpecEnv,
    fuel: nat,
)
    requires
        fuel > 0,
        spec_get_func(env, name) is Ok,
        args.len() != spec_get_func(env, name)->Ok_0.0.len(),
    ensures
        eval_expr_s(SpecExpr::Call(name, args), env, fuel) == Err::<SpecValue, SpecDiag>(
            arity_diag(),
        ),
{
}

} // verus!
