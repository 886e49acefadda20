//! The Pratt expression parser: prefix and atom forms, then infix operators
//! folded by binding power, which gives each precedence level left
//! associativity.

use vstd::prelude::*;
use vstd::string::*;

use crate::ast::{
    Expr, InfixOp, Literal, PrefixOp, SpecExpr, SpecLiteral, infix_binding_power, parse_number,
    parse_number_exec, prefix_binding_power, spec_literal_new, view_exprs,
    lemma_view_exprs_push,
};
use crate::diag::{DiagKind, SpecDiag};
use crate::lexer::SyntaxKind;
use crate::parser::decl::{parse_block_items, sp_block_items};
use crate::parser::{ParseError, Parser, Tok, lex_error_diag, perr, stalled};

verus! {

/// The infix operator a token kind denotes, if any.
pub open spec fn infix_of(k: SyntaxKind) -> Option<InfixOp> {
    if k == SyntaxKind::Plus {
        Some(InfixOp::Add)
    } else if k == SyntaxKind::Minus {
        Some(InfixOp::Sub)
    } else if k == SyntaxKind::Star {
        Some(InfixOp::Mul)
    } else if k == SyntaxKind::Slash {
        Some(InfixOp::Div)
    } else {
        None
    }
}

/// Whether a token kind can begin an atom: a literal, a grouping, or a
/// block. Arguments of a function call are atoms.
pub open spec fn is_atom_start(k: SyntaxKind) -> bool {
    k == SyntaxKind::Number || k == SyntaxKind::StringKw || k == SyntaxKind::TrueKw || k
        == SyntaxKind::FalseKw || k == SyntaxKind::Ident || k == SyntaxKind::LParen || k
        == SyntaxKind::LBrace
}

/// An expression at the given minimum binding power: a prefix form, then
/// infix operators while they bind at least as tightly.
pub open spec fn sp_expr(ts: Seq<Tok>, pos: int, min_bp: u8) -> Result<(SpecExpr, int), SpecDiag>
    decreases ts.len() - pos, 2int,
{
    match sp_prefix(ts, pos) {
        Err(d) => Err(d),
        Ok((lhs, p)) => {
            if p <= pos || p > ts.len() {
                Err(stalled())
            } else {
                sp_infix(ts, lhs, p, min_bp)
            }
        },
    }
}

/// The infix loop: while the next token is an operator whose left binding
/// power reaches `min_bp`, take it and a right operand parsed at its right
/// binding power.
pub open spec fn sp_infix(ts: Seq<Tok>, lhs: SpecExpr, pos: int, min_bp: u8) -> Result<
    (SpecExpr, int),
    SpecDiag,
>
    decreases ts.len() - pos, 0int,
{
    if 0 <= pos < ts.len() && infix_of(ts[pos].0) is Some {
        let op = infix_of(ts[pos].0).unwrap();
        let (lbp, rbp) = infix_binding_power(op);
        if lbp < min_bp {
            Ok((lhs, pos))
        } else {
            match sp_expr(ts, pos + 1, rbp) {
                Err(d) => Err(d),
                Ok((rhs, p2)) => {
                    if p2 <= pos || p2 > ts.len() {
                        Err(stalled())
                    } else {
                        sp_infix(
                            ts,
                            SpecExpr::Binary(Box::new(lhs), op, Box::new(rhs)),
                            p2,
                            min_bp,
                        )
                    }
                },
            }
        }
    } else {
        Ok((lhs, pos))
    }
}

/// A prefix form: a literal, a unary operator and its operand, a
/// parenthesised expression, a block, or a function call (an identifier
/// followed by at least one atom).
pub open spec fn sp_prefix(ts: Seq<Tok>, pos: int) -> Result<(SpecExpr, int), SpecDiag>
    decreases ts.len() - pos, 1int,
{
    if pos < 0 || pos >= ts.len() {
        Err(perr("expected expression"@))
    } else {
        let k = ts[pos].0;
        let text = ts[pos].1;
        if k == SyntaxKind::Number {
            match parse_number(text) {
                Some(_) => Ok((SpecExpr::Literal(spec_literal_new(k, text)), pos + 1)),
                None => Err(perr("number literal too large"@)),
            }
        } else if k == SyntaxKind::StringKw {
            if text.len() >= 2 {
                Ok((SpecExpr::Literal(spec_literal_new(k, text)), pos + 1))
            } else {
                Err(perr("malformed string literal"@))
            }
        } else if k == SyntaxKind::TrueKw || k == SyntaxKind::FalseKw {
            Ok((SpecExpr::Literal(spec_literal_new(k, text)), pos + 1))
        } else if k == SyntaxKind::Ident {
            if pos + 1 < ts.len() && is_atom_start(ts[pos + 1].0) {
                match sp_args(ts, pos + 1) {
                    Err(d) => Err(d),
                    Ok((args, p2)) => Ok((SpecExpr::Call(text, args), p2)),
                }
            } else {
                Ok((SpecExpr::Literal(SpecLiteral::Ident(text)), pos + 1))
            }
        } else if k == SyntaxKind::Minus || k == SyntaxKind::Bang {
            let op = if k == SyntaxKind::Bang {
                PrefixOp::Not
            } else {
                PrefixOp::Neg
            };
            match sp_expr(ts, pos + 1, prefix_binding_power(op)) {
                Err(d) => Err(d),
                Ok((inner, p2)) => Ok((SpecExpr::Unary(op, Box::new(inner)), p2)),
            }
        } else if k == SyntaxKind::LParen {
            match sp_expr(ts, pos + 1, 0) {
                Err(d) => Err(d),
                Ok((inner, p2)) => {
                    if 0 <= p2 < ts.len() && ts[p2].0 == SyntaxKind::RParen {
                        Ok((SpecExpr::Grouping(Box::new(inner)), p2 + 1))
                    } else {
                        Err(perr("expected )"@))
                    }
                },
            }
        } else if k == SyntaxKind::LBrace {
            match sp_block_items(ts, pos + 1) {
                Err(d) => Err(d),
                Ok((ds, p2)) => Ok((SpecExpr::Block(ds), p2)),
            }
        } else if k == SyntaxKind::Error {
            Err(lex_error_diag(text))
        } else {
            Err(perr("expected expression token, got "@ + text))
        }
    }
}

/// An atom: a prefix form without unary operators and without call
/// formation. A call's arguments are atoms, so nested calls take
/// parentheses.
pub open spec fn sp_atom(ts: Seq<Tok>, pos: int) -> Result<(SpecExpr, int), SpecDiag>
    decreases ts.len() - pos, 0int,
{
    if pos < 0 || pos >= ts.len() {
        Err(perr("expected expression"@))
    } else {
        let k = ts[pos].0;
        let text = ts[pos].1;
        if k == SyntaxKind::Number {
            match parse_number(text) {
                Some(_) => Ok((SpecExpr::Literal(spec_literal_new(k, text)), pos + 1)),
                None => Err(perr("number literal too large"@)),
            }
        } else if k == SyntaxKind::StringKw {
            if text.len() >= 2 {
                Ok((SpecExpr::Literal(spec_literal_new(k, text)), pos + 1))
            } else {
                Err(perr("malformed string literal"@))
            }
        } else if k == SyntaxKind::TrueKw || k == SyntaxKind::FalseKw {
            Ok((SpecExpr::Literal(spec_literal_new(k, text)), pos + 1))
        } else if k == SyntaxKind::Ident {
            Ok((SpecExpr::Literal(SpecLiteral::Ident(text)), pos + 1))
        } else if k == SyntaxKind::LParen {
            match sp_expr(ts, pos + 1, 0) {
                Err(d) => Err(d),
                Ok((inner, p2)) => {
                    if 0 <= p2 < ts.len() && ts[p2].0 == SyntaxKind::RParen {
                        Ok((SpecExpr::Grouping(Box::new(inner)), p2 + 1))
                    } else {
                        Err(perr("expected )"@))
                    }
                },
            }
        } else if k == SyntaxKind::LBrace {
            match sp_block_items(ts, pos + 1) {
                Err(d) => Err(d),
                Ok((ds, p2)) => Ok((SpecExpr::Block(ds), p2)),
            }
        } else if k == SyntaxKind::Error {
            Err(lex_error_diag(text))
        } else {
            Err(perr("expected expression token, got "@ + text))
        }
    }
}

/// A maximal run of atoms: the arguments of a call.
pub open spec fn sp_args(ts: Seq<Tok>, pos: int) -> Result<(Seq<SpecExpr>, int), SpecDiag>
    decreases ts.len() - pos, 2int,
{
    if 0 <= pos < ts.len() && is_atom_start(ts[pos].0) {
        match sp_atom(ts, pos) {
            Err(d) => Err(d),
            Ok((e, p1)) => {
                if p1 <= pos || p1 > ts.len() {
                    Err(stalled())
                } else {
                    match sp_args(ts, p1) {
                        Err(d) => Err(d),
                        Ok((rest, p2)) => Ok((seq![e] + rest, p2)),
                    }
                }
            },
        }
    } else {
        Ok((Seq::empty(), pos))
    }
}

/// Build a parse error whose message is a fixed prefix followed by the
/// offending lexeme.
fn mk_err(kind: DiagKind, prefix: &str, subject: &str) -> (r: ParseError)
    ensures
        r@ == (SpecDiag { kind, msg: prefix@ + subject@ }),
{
    let mut m = String::from_str(prefix);
    m.append(subject);
    ParseError { kind, msg: m }
}

/// Build a parse error with a fixed message.
fn mk_perr(msg: &str) -> (r: ParseError)
    ensures
        r@ == perr(msg@),
{
    ParseError { kind: DiagKind::ParseError, msg: String::from_str(msg) }
}

impl Expr {
    /// Parse one expression from the cursor.
    pub fn new(p: &mut Parser) -> (r: Result<Expr, ParseError>)
        requires
            old(p).wf(),
        ensures
            final(p).wf(),
            final(p).toks() == old(p).toks(),
            match r {
                Ok(e) => sp_expr(old(p).toks(), old(p).at(), 0) == Ok::<(SpecExpr, int), SpecDiag>(
                    (e@, final(p).at()),
                ) && old(p).at() < final(p).at(),
                Err(e) => sp_expr(old(p).toks(), old(p).at(), 0) == Err::<
                    (SpecExpr, int),
                    SpecDiag,
                >(e@),
            },
    {
        expr_binding_power(p, 0)
    }
}

/// Parse an expression whose operators must bind at least `min_bind`.
#[verifier::loop_isolation(false)]
pub fn expr_binding_power(p: &mut Parser, min_bind: u8) -> (r: Result<Expr, ParseError>)
    requires
        old(p).wf(),
    ensures
        final(p).wf(),
        final(p).toks() == old(p).toks(),
        match r {
            Ok(e) => sp_expr(old(p).toks(), old(p).at(), min_bind) == Ok::<
                (SpecExpr, int),
                SpecDiag,
            >((e@, final(p).at())) && old(p).at() < final(p).at(),
            Err(e) => sp_expr(old(p).toks(), old(p).at(), min_bind) == Err::<
                (SpecExpr, int),
                SpecDiag,
            >(e@),
        },
    decreases p.toks().len() - p.at(), 2int,
{
    let ghost tv = old(p).toks();
    let ghost pos0 = old(p).at();
    let mut poss_expr = match parse_prefix(p) {
        Err(e) => {
            return Err(e);
        },
        Ok(e) => e,
    };
    let ghost target = sp_expr(tv, pos0, min_bind);
    proof {
        assert(target == sp_infix(tv, poss_expr@, p.at(), min_bind));
    }
    loop
        invariant
            p.wf(),
            p.toks() == tv,
            pos0 < p.at() <= tv.len(),
            target == sp_expr(tv, pos0, min_bind),
            target == sp_infix(tv, poss_expr@, p.at(), min_bind),
        decreases tv.len() - p.at(),
    {
        let op = match p.peek() {
            Some(SyntaxKind::Plus) => InfixOp::Add,
            Some(SyntaxKind::Minus) => InfixOp::Sub,
            Some(SyntaxKind::Star) => InfixOp::Mul,
            Some(SyntaxKind::Slash) => InfixOp::Div,
            _ => {
                proof {
                    assert(target == Ok::<(SpecExpr, int), SpecDiag>((poss_expr@, p.at())));
                }
                return Ok(poss_expr);
            },
        };
        let (lbind, rbind) = op.binding_power();
        if lbind < min_bind {
            proof {
                assert(target == Ok::<(SpecExpr, int), SpecDiag>((poss_expr@, p.at())));
            }
            return Ok(poss_expr);
        }
        let ghost pos_op = p.at();
        p.consume();
        let rhs = match expr_binding_power(p, rbind) {
            Err(e) => {
                proof {
                    assert(target == Err::<(SpecExpr, int), SpecDiag>(e@));
                }
                return Err(e);
            },
            Ok(e) => e,
        };
        proof {
            assert(sp_expr(tv, pos_op + 1, rbind) == Ok::<(SpecExpr, int), SpecDiag>(
                (rhs@, p.at()),
            ));
        }
        poss_expr = Expr::Binary(Box::new(poss_expr), op, Box::new(rhs));
    }
}

/// Parse a prefix form.
fn parse_prefix(p: &mut Parser) -> (r: Result<Expr, ParseError>)
    requires
        old(p).wf(),
    ensures
        final(p).wf(),
        final(p).toks() == old(p).toks(),
        match r {
            Ok(e) => sp_prefix(old(p).toks(), old(p).at()) == Ok::<(SpecExpr, int), SpecDiag>(
                (e@, final(p).at()),
            ) && old(p).at() < final(p).at(),
            Err(e) => sp_prefix(old(p).toks(), old(p).at()) == Err::<(SpecExpr, int), SpecDiag>(
                e@,
            ),
        },
    decreases p.toks().len() - p.at(), 1int,
{
    let k = match p.peek() {
        None => {
            return Err(mk_perr("expected expression"));
        },
        Some(k) => k,
    };
    match k {
        SyntaxKind::Number => {
            let (_, text) = p.next();
            match parse_number_exec(text) {
                Some(n) => Ok(Expr::Literal(Literal::NUMBER(n))),
                None => Err(mk_perr("number literal too large")),
            }
        },
        SyntaxKind::StringKw => {
            let (_, text) = p.next();
            let n = text.unicode_len();
            if n >= 2 {
                let inner = text.substring_char(1, n - 1);
                Ok(Expr::Literal(Literal::STRING(String::from_str(inner))))
            } else {
                Err(mk_perr("malformed string literal"))
            }
        },
        SyntaxKind::TrueKw => {
            p.consume();
            Ok(Expr::Literal(Literal::TRUE))
        },
        SyntaxKind::FalseKw => {
            p.consume();
            Ok(Expr::Literal(Literal::FALSE))
        },
        SyntaxKind::Ident => {
            let (_, text) = p.next();
            let call = match p.peek() {
                Some(k1) => is_atom_start_exec(k1),
                None => false,
            };
            if call {
                let args = match parse_args(p) {
                    Err(e) => {
                        return Err(e);
                    },
                    Ok(a) => a,
                };
                Ok(Expr::Call { callee: String::from_str(text), args })
            } else {
                Ok(Expr::Literal(Literal::IDENT(String::from_str(text))))
            }
        },
        SyntaxKind::Minus | SyntaxKind::Bang => {
            let (k0, _) = p.next();
            let op = PrefixOp::from_kind(k0);
            let bp = op.binding_power();
            let inner = match expr_binding_power(p, bp.1) {
                Err(e) => {
                    return Err(e);
                },
                Ok(e) => e,
            };
            Ok(Expr::Unary(op, Box::new(inner)))
        },
        SyntaxKind::LParen => {
            p.consume();
            let inner = match expr_binding_power(p, 0) {
                Err(e) => {
                    return Err(e);
                },
                Ok(e) => e,
            };
            match p.peek() {
                Some(SyntaxKind::RParen) => {
                    p.consume();
                    Ok(Expr::Grouping(Box::new(inner)))
                },
                _ => Err(mk_perr("expected )")),
            }
        },
        SyntaxKind::LBrace => {
            p.consume();
            let ds = match parse_block_items(p) {
                Err(e) => {
                    return Err(e);
                },
                Ok(ds) => ds,
            };
            Ok(Expr::Block(ds))
        },
        SyntaxKind::Error => {
            let (_, text) = p.next();
            Err(mk_err(DiagKind::LexError, "unrecognised input: ", text))
        },
        _ => {
            let (_, text) = p.next();
            Err(mk_err(DiagKind::ParseError, "expected expression token, got ", text))
        },
    }
}

/// Whether a token kind can begin an atom, decided in executable code.
fn is_atom_start_exec(k: SyntaxKind) -> (b: bool)
    ensures
        b == is_atom_start(k),
{
    match k {
        SyntaxKind::Number | SyntaxKind::StringKw | SyntaxKind::TrueKw | SyntaxKind::FalseKw
            | SyntaxKind::Ident | SyntaxKind::LParen | SyntaxKind::LBrace => true,
        _ => false,
    }
}

/// Parse an atom.
fn parse_atom(p: &mut Parser) -> (r: Result<Expr, ParseError>)
    requires
        old(p).wf(),
    ensures
        final(p).wf(),
        final(p).toks() == old(p).toks(),
        match r {
            Ok(e) => sp_atom(old(p).toks(), old(p).at()) == Ok::<(SpecExpr, int), SpecDiag>(
                (e@, final(p).at()),
            ) && old(p).at() < final(p).at(),
            Err(e) => sp_atom(old(p).toks(), old(p).at()) == Err::<(SpecExpr, int), SpecDiag>(e@),
        },
    decreases p.toks().len() - p.at(), 0int,
{
    let k = match p.peek() {
        None => {
            return Err(mk_perr("expected expression"));
        },
        Some(k) => k,
    };
    match k {
        SyntaxKind::Number => {
            let (_, text) = p.next();
            match parse_number_exec(text) {
                Some(n) => Ok(Expr::Literal(Literal::NUMBER(n))),
                None => Err(mk_perr("number literal too large")),
            }
        },
        SyntaxKind::StringKw => {
            let (_, text) = p.next();
            let n = text.unicode_len();
            if n >= 2 {
                let inner = text.substring_char(1, n - 1);
                Ok(Expr::Literal(Literal::STRING(String::from_str(inner))))
            } else {
                Err(mk_perr("malformed string literal"))
            }
        },
        SyntaxKind::TrueKw => {
            p.consume();
            Ok(Expr::Literal(Literal::TRUE))
        },
        SyntaxKind::FalseKw => {
            p.consume();
            Ok(Expr::Literal(Literal::FALSE))
        },
        SyntaxKind::Ident => {
            let (_, text) = p.next();
            Ok(Expr::Literal(Literal::IDENT(String::from_str(text))))
        },
        SyntaxKind::LParen => {
            p.consume();
            let inner = match expr_binding_power(p, 0) {
                Err(e) => {
                    return Err(e);
                },
                Ok(e) => e,
            };
            match p.peek() {
                Some(SyntaxKind::RParen) => {
                    p.consume();
                    Ok(Expr::Grouping(Box::new(inner)))
                },
                _ => Err(mk_perr("expected )")),
            }
        },
        SyntaxKind::LBrace => {
            p.consume();
            let ds = match parse_block_items(p) {
                Err(e) => {
                    return Err(e);
                },
                Ok(ds) => ds,
            };
            Ok(Expr::Block(ds))
        },
        SyntaxKind::Error => {
            let (_, text) = p.next();
            Err(mk_err(DiagKind::LexError, "unrecognised input: ", text))
        },
        _ => {
            let (_, text) = p.next();
            Err(mk_err(DiagKind::ParseError, "expected expression token, got ", text))
        },
    }
}

/// Parse a run of atoms: the arguments of a call.
#[verifier::loop_isolation(false)]
fn parse_args(p: &mut Parser) -> (r: Result<Vec<Expr>, ParseError>)
    requires
        old(p).wf(),
    ensures
        final(p).wf(),
        final(p).toks() == old(p).toks(),
        match r {
            Ok(args) => sp_args(old(p).toks(), old(p).at()) == Ok::<
                (Seq<SpecExpr>, int),
                SpecDiag,
            >((view_exprs(args@), final(p).at())) && old(p).at() <= final(p).at(),
            Err(e) => sp_args(old(p).toks(), old(p).at()) == Err::<(Seq<SpecExpr>, int), SpecDiag>(
                e@,
            ),
        },
    decreases p.toks().len() - p.at(), 2int,
{
    let ghost tv = old(p).toks();
    let ghost pos0 = old(p).at();
    let mut out: Vec<Expr> = Vec::new();
    proof {
        assert(view_exprs(out@) =~= Seq::<SpecExpr>::empty());
        let ghost c = sp_args(tv, pos0);
        match c {
            Ok((rest, q)) => {
                assert(view_exprs(out@) + rest =~= rest);
            },
            Err(_) => {},
        }
    }
    loop
        invariant
            p.wf(),
            p.toks() == tv,
            tv == old(p).toks(),
            pos0 <= p.at() <= tv.len(),
            sp_args(tv, pos0) == (match sp_args(tv, p.at()) {
                Ok((rest, q)) => Ok::<(Seq<SpecExpr>, int), SpecDiag>(
                    (view_exprs(out@) + rest, q),
                ),
                Err(d) => Err::<(Seq<SpecExpr>, int), SpecDiag>(d),
            }),
        decreases tv.len() - p.at(),
    {
        let more = match p.peek() {
            Some(k) => is_atom_start_exec(k),
            None => false,
        };
        if !more {
            proof {
                assert(sp_args(tv, p.at()) == Ok::<(Seq<SpecExpr>, int), SpecDiag>(
                    (Seq::empty(), p.at()),
                ));
                assert(view_exprs(out@) + Seq::<SpecExpr>::empty() =~= view_exprs(out@));
            }
            return Ok(out);
        }
        let ghost cur = p.at();
        let e = match parse_atom(p) {
            Err(e) => {
                proof {
                    assert(sp_args(tv, cur) == Err::<(Seq<SpecExpr>, int), SpecDiag>(e@));
                }
                return Err(e);
            },
            Ok(e) => e,
        };
        proof {
            let ghost ev = e@;
            assert(sp_atom(tv, cur) == Ok::<(SpecExpr, int), SpecDiag>((ev, p.at())));
            let ghost c = sp_args(tv, p.at());
            assert(sp_args(tv, cur) == (match c {
                Ok((rest, q)) => Ok::<(Seq<SpecExpr>, int), SpecDiag>((seq![ev] + rest, q)),
                Err(d) => Err::<(Seq<SpecExpr>, int), SpecDiag>(d),
            }));
            lemma_view_exprs_push(out@, e);
            match c {
                Ok((rest, q)) => {
                    assert(view_exprs(out@) + (seq![ev] + rest) =~= view_exprs(out@.push(e))
                        + rest);
                },
                Err(_) => {},
            }
        }
        out.push(e);
    }
}

/// The token kind that spells an infix operator.
pub open spec fn token_of(op: InfixOp) -> SyntaxKind {
    match op {
        InfixOp::Add => SyntaxKind::Plus,
        InfixOp::Sub => SyntaxKind::Minus,
        InfixOp::Mul => SyntaxKind::Star,
        InfixOp::Div => SyntaxKind::Slash,
    }
}

/// Multiplicative operators bind tighter than additive ones: for any
/// number literals a, b, c, an additive operator `op1` and a
/// multiplicative `op2`, the tokens of `a op1 b op2 c` parse as
/// `a op1 (b op2 c)`, and those of `a op2 b op1 c` as `(a op2 b) op1 c`.
pub proof fn lemma_precedence(
    a: i64,
    b: i64,
    c: i64,
    op1: InfixOp,
    op2: InfixOp,
    t1: Seq<char>,
    t2: Seq<char>,
    ta: Seq<char>,
    tb: Seq<char>,
    tc: Seq<char>,
)
    requires
        op1 == InfixOp::Add || op1 == InfixOp::Sub,
        op2 == InfixOp::Mul || op2 == InfixOp::Div,
        parse_number(ta) == Some(a),
        parse_number(tb) == Some(b),
        parse_number(tc) == Some(c),
    ensures
        sp_expr(
            seq![
                (SyntaxKind::Number, ta),
                (token_of(op1), t1),
                (SyntaxKind::Number, tb),
                (token_of(op2), t2),
                (SyntaxKind::Number, tc),
            ],
            0,
            0,
        ) == Ok::<(SpecExpr, int), SpecDiag>(
            (
                SpecExpr::Binary(
                    Box::new(SpecExpr::Literal(SpecLiteral::Num(a))),
                    op1,
                    Box::new(
                        SpecExpr::Binary(
                            Box::new(SpecExpr::Literal(SpecLiteral::Num(b))),
                            op2,
                            Box::new(SpecExpr::Literal(SpecLiteral::Num(c))),
                        ),
                    ),
                ),
                5,
            ),
        ),
        sp_expr(
            seq![
                (SyntaxKind::Number, ta),
                (token_of(op2), t2),
                (SyntaxKind::Number, tb),
                (token_of(op1), t1),
                (SyntaxKind::Number, tc),
            ],
            0,
            0,
        ) == Ok::<(SpecExpr, int), SpecDiag>(
            (
                SpecExpr::Binary(
                    Box::new(
                        SpecExpr::Binary(
                            Box::new(SpecExpr::Literal(SpecLiteral::Num(a))),
                            op2,
                            Box::new(SpecExpr::Literal(SpecLiteral::Num(b))),
                        ),
                    ),
                    op1,
                    Box::new(SpecExpr::Literal(SpecLiteral::Num(c))),
                ),
                5,
            ),
        ),
{
    let la = SpecExpr::Literal(SpecLiteral::Num(a));
    let lb = SpecExpr::Literal(SpecLiteral::Num(b));
    let lc = SpecExpr::Literal(SpecLiteral::Num(c));
    let ts1 = seq![
        (SyntaxKind::Number, ta),
        (token_of(op1), t1),
        (SyntaxKind::Number, tb),
        (token_of(op2), t2),
        (SyntaxKind::Number, tc),
    ];
    assert(sp_prefix(ts1, 0) == Ok::<(SpecExpr, int), SpecDiag>((la, 1)));
    assert(sp_prefix(ts1, 2) == Ok::<(SpecExpr, int), SpecDiag>((lb, 3)));
    assert(sp_prefix(ts1, 4) == Ok::<(SpecExpr, int), SpecDiag>((lc, 5)));
    assert(sp_infix(ts1, lc, 5, 4) == Ok::<(SpecExpr, int), SpecDiag>((lc, 5)));
    assert(sp_expr(ts1, 4, 4) == Ok::<(SpecExpr, int), SpecDiag>((lc, 5)));
    let bc = SpecExpr::Binary(Box::new(lb), op2, Box::new(lc));
    assert(sp_infix(ts1, bc, 5, 2) == Ok::<(SpecExpr, int), SpecDiag>((bc, 5)));
    assert(sp_infix(ts1, lb, 3, 2) == Ok::<(SpecExpr, int), SpecDiag>((bc, 5)));
    assert(sp_expr(ts1, 2, 2) == Ok::<(SpecExpr, int), SpecDiag>((bc, 5)));
    let abc = SpecExpr::Binary(Box::new(la), op1, Box::new(bc));
    assert(sp_infix(ts1, abc, 5, 0) == Ok::<(SpecExpr, int), SpecDiag>((abc, 5)));
    assert(sp_infix(ts1, la, 1, 0) == Ok::<(SpecExpr, int), SpecDiag>((abc, 5)));
    assert(sp_expr(ts1, 0, 0) == Ok::<(SpecExpr, int), SpecDiag>((abc, 5)));

    let ts2 = seq![
        (SyntaxKind::Number, ta),
        (token_of(op2), t2),
        (SyntaxKind::Number, tb),
        (token_of(op1), t1),
        (SyntaxKind::Number, tc),
    ];
    assert(sp_prefix(ts2, 0) == Ok::<(SpecExpr, int), SpecDiag>((la, 1)));
    assert(sp_prefix(ts2, 2) == Ok::<(SpecExpr, int), SpecDiag>((lb, 3)));
    assert(sp_prefix(ts2, 4) == Ok::<(SpecExpr, int), SpecDiag>((lc, 5)));
    assert(sp_infix(ts2, lb, 3, 4) == Ok::<(SpecExpr, int), SpecDiag>((lb, 3)));
    assert(sp_expr(ts2, 2, 4) == Ok::<(SpecExpr, int), SpecDiag>((lb, 3)));
    let ab = SpecExpr::Binary(Box::new(la), op2, Box::new(lb));
    assert(sp_infix(ts2, lc, 5, 2) == Ok::<(SpecExpr, int), SpecDiag>((lc, 5)));
    assert(sp_expr(ts2, 4, 2) == Ok::<(SpecExpr, int), SpecDiag>((lc, 5)));
    let abc2 = SpecExpr::Binary(Box::new(ab), op1, Box::new(lc));
    assert(sp_infix(ts2, abc2, 5, 0) == Ok::<(SpecExpr, int), SpecDiag>((abc2, 5)));
    assert(sp_infix(ts2, ab, 3, 0) == Ok::<(SpecExpr, int), SpecDiag>((abc2, 5)));
    assert(sp_infix(ts2, la, 1, 0) == Ok::<(SpecExpr, int), SpecDiag>((abc2, 5)));
    assert(sp_expr(ts2, 0, 0) == Ok::<(SpecExpr, int), SpecDiag>((abc2, 5)));
}

/// Operators of one precedence level are left-associative: for any number
/// literals a, b, c and two operators of the same level, the tokens of
/// `a op1 b op2 c` parse as `(a op1 b) op2 c`.
pub proof fn lemma_left_associativity(
    a: i64,
    b: i64,
    c: i64,
    op1: InfixOp,
    op2: InfixOp,
    t1: Seq<char>,
    t2: Seq<char>,
    ta: Seq<char>,
    tb: Seq<char>,
    tc: Seq<char>,
)
    requires
        ((op1 == InfixOp::Add || op1 == InfixOp::Sub) && (op2 == InfixOp::Add || op2
            == InfixOp::Sub)) || ((op1 == InfixOp::Mul || op1 == InfixOp::Div) && (op2
            == InfixOp::Mul || op2 == InfixOp::Div)),
        parse_number(ta) == Some(a),
        parse_number(tb) == Some(b),
        parse_number(tc) == Some(c),
    ensures
        sp_expr(
            seq![
                (SyntaxKind::Number, ta),
                (token_of(op1), t1),
                (SyntaxKind::Number, tb),
                (token_of(op2), t2),
                (SyntaxKind::Number, tc),
            ],
            0,
            0,
        ) == Ok::<(SpecExpr, int), SpecDiag>(
            (
                SpecExpr::Binary(
                    Box::new(
                        SpecExpr::Binary(
                            Box::new(SpecExpr::Literal(SpecLiteral::Num(a))),
                            op1,
                            Box::new(SpecExpr::Literal(SpecLiteral::Num(b))),
                        ),
                    ),
                    op2,
                    Box::new(SpecExpr::Literal(SpecLiteral::Num(c))),
                ),
                5,
            ),
        ),
{
    let la = SpecExpr::Literal(SpecLiteral::Num(a));
    let lb = SpecExpr::Literal(SpecLiteral::Num(b));
    let lc = SpecExpr::Literal(SpecLiteral::Num(c));
    let ts = seq![
        (SyntaxKind::Number, ta),
        (token_of(op1), t1),
        (SyntaxKind::Number, tb),
        (token_of(op2), t2),
        (SyntaxKind::Number, tc),
    ];
    let rbp = infix_binding_power(op1).1;
    assert(sp_prefix(ts, 0) == Ok::<(SpecExpr, int), SpecDiag>((la, 1)));
    assert(sp_prefix(ts, 2) == Ok::<(SpecExpr, int), SpecDiag>((lb, 3)));
    assert(sp_prefix(ts, 4) == Ok::<(SpecExpr, int), SpecDiag>((lc, 5)));
    assert(sp_infix(ts, lb, 3, rbp as u8) == Ok::<(SpecExpr, int), SpecDiag>((lb, 3)));
    assert(sp_expr(ts, 2, rbp as u8) == Ok::<(SpecExpr, int), SpecDiag>((lb, 3)));
    let ab = SpecExpr::Binary(Box::new(la), op1, Box::new(lb));
    let rbp2 = infix_binding_power(op2).1;
    assert(sp_infix(ts, lc, 5, rbp2 as u8) == Ok::<(SpecExpr, int), SpecDiag>((lc, 5)));
    assert(sp_expr(ts, 4, rbp2 as u8) == Ok::<(SpecExpr, int), SpecDiag>((lc, 5)));
    let abc = SpecExpr::Binary(Box::new(ab), op2, Box::new(lc));
    assert(sp_infix(ts, abc, 5, 0) == Ok::<(SpecExpr, int), SpecDiag>((abc, 5)));
    assert(sp_infix(ts, ab, 3, 0) == Ok::<(SpecExpr, int), SpecDiag>((abc, 5)));
    assert(sp_infix(ts, la, 1, 0) == Ok::<(SpecExpr, int), SpecDiag>((abc, 5)));
    assert(sp_expr(ts, 0, 0) == Ok::<(SpecExpr, int), SpecDiag>((abc, 5)));
}

/// A parsed prefix form always consumes at least one token and never runs
/// past the end; so the termination guards after it never fire.
pub proof fn lemma_sp_prefix_advances(ts: Seq<Tok>, pos: int)
    ensures
        match sp_prefix(ts, pos) {
            Ok((_, p)) => pos < p <= ts.len(),
            Err(_) => true,
        },
    decreases ts.len() - pos, 1int,
{
    if 0 <= pos < ts.len() {
        let k = ts[pos].0;
        if k == SyntaxKind::Ident {
            if pos + 1 < ts.len() && is_atom_start(ts[pos + 1].0) {
                lemma_sp_args_advances(ts, pos + 1);
            }
        } else if k == SyntaxKind::Minus || k == SyntaxKind::Bang {
            let op = if k == SyntaxKind::Bang {
                PrefixOp::Not
            } else {
                PrefixOp::Neg
            };
            lemma_sp_expr_advances(ts, pos + 1, prefix_binding_power(op));
        } else if k == SyntaxKind::LParen {
            lemma_sp_expr_advances(ts, pos + 1, 0);
        } else if k == SyntaxKind::LBrace {
            crate::parser::decl::lemma_sp_block_items_advances(ts, pos + 1);
        }
    }
}

/// A parsed atom always consumes at least one token and never runs past
/// the end.
pub proof fn lemma_sp_atom_advances(ts: Seq<Tok>, pos: int)
    ensures
        match sp_atom(ts, pos) {
            Ok((_, p)) => pos < p <= ts.len(),
            Err(_) => true,
        },
    decreases ts.len() - pos, 0int,
{
    if 0 <= pos < ts.len() {
        let k = ts[pos].0;
        if k == SyntaxKind::LParen {
            lemma_sp_expr_advances(ts, pos + 1, 0);
        } else if k == SyntaxKind::LBrace {
            crate::parser::decl::lemma_sp_block_items_advances(ts, pos + 1);
        }
    }
}

/// A parsed argument list never moves backwards or past the end.
pub proof fn lemma_sp_args_advances(ts: Seq<Tok>, pos: int)
    ensures
        match sp_args(ts, pos) {
            Ok((_, p)) => pos <= p && (pos <= ts.len() ==> p <= ts.len()),
            Err(_) => true,
        },
    decreases ts.len() - pos, 2int,
{
    if 0 <= pos < ts.len() && is_atom_start(ts[pos].0) {
        lemma_sp_atom_advances(ts, pos);
        match sp_atom(ts, pos) {
            Err(_) => {},
            Ok((_, p1)) => {
                if !(p1 <= pos || p1 > ts.len()) {
                    lemma_sp_args_advances(ts, p1);
                }
            },
        }
    }
}

/// A parsed expression always consumes at least one token and never runs
/// past the end.
pub proof fn lemma_sp_expr_advances(ts: Seq<Tok>, pos: int, min_bp: u8)
    ensures
        match sp_expr(ts, pos, min_bp) {
            Ok((_, p)) => pos < p <= ts.len(),
            Err(_) => true,
        },
    decreases ts.len() - pos, 2int,
{
    lemma_sp_prefix_advances(ts, pos);
    match sp_prefix(ts, pos) {
        Err(_) => {},
        Ok((lhs, p)) => {
            if !(p <= pos || p > ts.len()) {
                lemma_sp_infix_advances(ts, lhs, p, min_bp);
            }
        },
    }
}

/// The infix loop never moves backwards or past the end.
pub proof fn lemma_sp_infix_advances(ts: Seq<Tok>, lhs: SpecExpr, pos: int, min_bp: u8)
    ensures
        match sp_infix(ts, lhs, pos, min_bp) {
            Ok((_, p)) => pos <= p && (pos <= ts.len() ==> p <= ts.len()),
            Err(_) => true,
        },
    decreases ts.len() - pos, 0int,
{
    if 0 <= pos < ts.len() && infix_of(ts[pos].0) is Some {
        let op = infix_of(ts[pos].0).unwrap();
        let (lbp, rbp) = infix_binding_power(op);
        if lbp >= min_bp {
            lemma_sp_expr_advances(ts, pos + 1, rbp);
            match sp_expr(ts, pos + 1, rbp) {
                Err(_) => {},
                Ok((rhs, p2)) => {
                    if !(p2 <= pos || p2 > ts.len()) {
                        lemma_sp_infix_advances(
                            ts,
                            SpecExpr::Binary(Box::new(lhs), op, Box::new(rhs)),
                            p2,
                            min_bp,
                        );
                    }
                },
            }
        }
    }
}

} // verus!


