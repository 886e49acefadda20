//! The declaration parser: `let` bindings, `fn` definitions, bare
//! statements, and the bodies of brace-delimited blocks.

use vstd::prelude::*;
use vstd::string::*;

use crate::ast::{Decl, SpecDecl, view_decls, view_names, lemma_view_decls_push};
use crate::diag::{DiagKind, SpecDiag};
use crate::lexer::SyntaxKind;
use crate::parser::expr::sp_expr;
use crate::parser::stmt::sp_stmt;
use crate::parser::{ParseError, Parser, Tok, perr, skip_newlines_s, sp_term, stalled};

verus! {

/// A maximal run of identifiers: the parameters of a function definition.
pub open spec fn sp_params(ts: Seq<Tok>, pos: int) -> (Seq<Seq<char>>, int)
    decreases ts.len() - pos,
{
    if 0 <= pos < ts.len() && ts[pos].0 == SyntaxKind::Ident {
        let (rest, p) = sp_params(ts, pos + 1);
        (seq![ts[pos].1] + rest, p)
    } else {
        (Seq::empty(), pos)
    }
}

/// A declaration: a `let` binding with a mandatory initialiser, a `fn`
/// definition, or a bare statement, each closed by a terminator.
pub open spec fn sp_decl(ts: Seq<Tok>, pos: int) -> Result<(SpecDecl, int), SpecDiag>
    decreases ts.len() - pos, 4int,
{
    if pos < 0 || pos >= ts.len() {
        Err(perr("expected declaration"@))
    } else if ts[pos].0 == SyntaxKind::LetKw {
        if pos + 1 < ts.len() && ts[pos + 1].0 == SyntaxKind::Ident {
            if pos + 2 < ts.len() && ts[pos + 2].0 == SyntaxKind::Equals {
                match sp_expr(ts, pos + 3, 0) {
                    Err(d) => Err(d),
                    Ok((e, p)) => match sp_term(ts, p) {
                        Err(d) => Err(d),
                        Ok(p2) => Ok((SpecDecl::Let(ts[pos + 1].1, e), p2)),
                    },
                }
            } else {
                Err(perr("let without initialiser"@))
            }
        } else {
            Err(perr("expected identifier"@))
        }
    } else if ts[pos].0 == SyntaxKind::FnKw {
        if pos + 1 < ts.len() && ts[pos + 1].0 == SyntaxKind::Ident {
            let (ps, p1) = sp_params(ts, pos + 2);
            if p1 < pos + 2 || p1 > ts.len() {
                Err(stalled())
            } else if p1 + 1 < ts.len() && ts[p1].0 == SyntaxKind::Equals && ts[p1 + 1].0
                == SyntaxKind::GreaterThan {
                match sp_stmt(ts, p1 + 2) {
                    Err(d) => Err(d),
                    Ok((b, p2)) => match sp_term(ts, p2) {
                        Err(d) => Err(d),
                        Ok(p3) => Ok((SpecDecl::Func(ts[pos + 1].1, ps, b), p3)),
                    },
                }
            } else {
                Err(perr("expected => after parameters"@))
            }
        } else {
            Err(perr("expected identifier"@))
        }
    } else {
        match sp_stmt(ts, pos) {
            Err(d) => Err(d),
            Ok((st, p)) => match sp_term(ts, p) {
                Err(d) => Err(d),
                Ok(p2) => Ok((SpecDecl::Stmt(st), p2)),
            },
        }
    }
}

/// The body of a block: declarations separated by newlines, closed by `}`.
pub open spec fn sp_block_items(ts: Seq<Tok>, pos: int) -> Result<(Seq<SpecDecl>, int), SpecDiag>
    decreases ts.len() - pos, 5int,
{
    let p = skip_newlines_s(ts, pos);
    if p >= ts.len() {
        Err(perr("expected }"@))
    } else if ts[p].0 == SyntaxKind::RBrace {
        Ok((Seq::empty(), p + 1))
    } else {
        match sp_decl(ts, p) {
            Err(d) => Err(d),
            Ok((d, p1)) => {
                if p1 <= pos || p1 > ts.len() {
                    Err(stalled())
                } else {
                    match sp_block_items(ts, p1) {
                        Err(e) => Err(e),
                        Ok((rest, p2)) => Ok((seq![d] + rest, p2)),
                    }
                }
            },
        }
    }
}

fn mk_perr(msg: &str) -> (r: ParseError)
    ensures
        r@ == perr(msg@),
{
    ParseError { kind: DiagKind::ParseError, msg: String::from_str(msg) }
}

/// Parse a run of parameter identifiers.
#[verifier::loop_isolation(false)]
fn parse_params(p: &mut Parser) -> (r: Vec<String>)
    requires
        old(p).wf(),
    ensures
        final(p).wf(),
        final(p).toks() == old(p).toks(),
        sp_params(old(p).toks(), old(p).at()) == (view_names(r@), final(p).at() as int),
        old(p).at() <= final(p).at(),
    decreases p.toks().len() - p.at(),
{
    let ghost tv = old(p).toks();
    let ghost pos0 = old(p).at();
    let mut out: Vec<String> = Vec::new();
    proof {
        assert(view_names(out@) =~= Seq::<Seq<char>>::empty());
        assert(view_names(out@) + sp_params(tv, pos0).0 =~= sp_params(tv, pos0).0);
    }
    loop
        invariant
            p.wf(),
            p.toks() == tv,
            tv == old(p).toks(),
            pos0 <= p.at() <= tv.len(),
            sp_params(tv, pos0).0 == view_names(out@) + sp_params(tv, p.at()).0,
            sp_params(tv, pos0).1 == sp_params(tv, p.at()).1,
        decreases tv.len() - p.at(),
    {
        match p.peek() {
            Some(SyntaxKind::Ident) => {},
            _ => {
                proof {
                    assert(sp_params(tv, p.at()) == ((Seq::<Seq<char>>::empty(), p.at() as int)));
                    assert(view_names(out@) + Seq::<Seq<char>>::empty() =~= view_names(out@));
                }
                return out;
            },
        }
        let ghost cur = p.at();
        let (_, text) = p.next();
        let s = String::from_str(text);
        proof {
            let ghost sv = text@;
            assert(sp_params(tv, cur).0 == seq![sv] + sp_params(tv, cur + 1).0);
            assert(sp_params(tv, cur).1 == sp_params(tv, cur + 1).1);
            assert(view_names(out@.push(s)) =~= view_names(out@).push(sv));
            assert(view_names(out@) + (seq![sv] + sp_params(tv, cur + 1).0) =~= view_names(
                out@.push(s),
            ) + sp_params(tv, cur + 1).0);
        }
        out.push(s);
    }
}

impl Decl {
    /// Parse one declaration from the cursor.
    pub fn new(p: &mut Parser) -> (r: Result<Decl, ParseError>)
        requires
            old(p).wf(),
        ensures
            final(p).wf(),
            final(p).toks() == old(p).toks(),
            match r {
                Ok(d) => sp_decl(old(p).toks(), old(p).at()) == Ok::<(SpecDecl, int), SpecDiag>(
                    (d@, final(p).at()),
                ) && old(p).at() < final(p).at(),
                Err(e) => sp_decl(old(p).toks(), old(p).at()) == Err::<(SpecDecl, int), SpecDiag>(
                    e@,
                ),
            },
        decreases p.toks().len() - p.at(), 4int,
    {
        let k = match p.peek() {
            None => {
                return Err(mk_perr("expected declaration"));
            },
            Some(k) => k,
        };
        match k {
            SyntaxKind::LetKw => {
                p.consume();
                let name = match p.peek() {
                    Some(SyntaxKind::Ident) => {
                        let (_, text) = p.next();
                        text
                    },
                    _ => {
                        return Err(mk_perr("expected identifier"));
                    },
                };
                match p.peek() {
                    Some(SyntaxKind::Equals) => {
                        p.consume();
                    },
                    _ => {
                        return Err(mk_perr("let without initialiser"));
                    },
                }
                let init = match crate::parser::expr::expr_binding_power(p, 0) {
                    Err(e) => {
                        return Err(e);
                    },
                    Ok(e) => e,
                };
                match p.terminator() {
                    Err(e) => Err(e),
                    Ok(()) => Ok(Decl::Let { name: String::from_str(name), init }),
                }
            },
            SyntaxKind::FnKw => {
                p.consume();
                let name = match p.peek() {
                    Some(SyntaxKind::Ident) => {
                        let (_, text) = p.next();
                        text
                    },
                    _ => {
                        return Err(mk_perr("expected identifier"));
                    },
                };
                let params = parse_params(p);
                let arrow = match (p.peek(), p.peek_second()) {
                    (Some(SyntaxKind::Equals), Some(SyntaxKind::GreaterThan)) => true,
                    _ => false,
                };
                if !arrow {
                    return Err(mk_perr("expected => after parameters"));
                }
                p.consume();
                p.consume();
                let body = match crate::ast::Stmt::new(p) {
                    Err(e) => {
                        return Err(e);
                    },
                    Ok(st) => st,
                };
                match p.terminator() {
                    Err(e) => Err(e),
                    Ok(()) => Ok(
                        Decl::Func { name: String::from_str(name), params, body },
                    ),
                }
            },
            _ => {
                let st = match crate::ast::Stmt::new(p) {
                    Err(e) => {
                        return Err(e);
                    },
                    Ok(st) => st,
                };
                match p.terminator() {
                    Err(e) => Err(e),
                    Ok(()) => Ok(Decl::Stmt(st)),
                }
            },
        }
    }
}

/// Parse the declarations of a block body up to and including the `}`.
#[verifier::loop_isolation(false)]
pub(crate) fn parse_block_items(p: &mut Parser) -> (r: Result<Vec<Decl>, ParseError>)
    requires
        old(p).wf(),
    ensures
        final(p).wf(),
        final(p).toks() == old(p).toks(),
        match r {
            Ok(ds) => sp_block_items(old(p).toks(), old(p).at()) == Ok::<
                (Seq<SpecDecl>, int),
                SpecDiag,
            >((view_decls(ds@), final(p).at())) && old(p).at() < final(p).at(),
            Err(e) => sp_block_items(old(p).toks(), old(p).at()) == Err::<
                (Seq<SpecDecl>, int),
                SpecDiag,
            >(e@),
        },
    decreases p.toks().len() - p.at(), 5int,
{
    let ghost tv = old(p).toks();
    let ghost pos0 = old(p).at();
    let mut out: Vec<Decl> = Vec::new();
    proof {
        assert(view_decls(out@) =~= Seq::<SpecDecl>::empty());
        let ghost c = sp_block_items(tv, pos0);
        match c {
            Ok((rest, q)) => {
                assert(view_decls(out@) + rest =~= rest);
            },
            Err(_) => {},
        }
    }
    loop
        invariant
            p.wf(),
            p.toks() == tv,
            tv == old(p).toks(),
            pos0 <= p.at() <= tv.len(),
            sp_block_items(tv, pos0) == (match sp_block_items(tv, p.at()) {
                Ok((rest, q)) => Ok::<(Seq<SpecDecl>, int), SpecDiag>(
                    (view_decls(out@) + rest, q),
                ),
                Err(d) => Err::<(Seq<SpecDecl>, int), SpecDiag>(d),
            }),
        decreases tv.len() - p.at(),
    {
        let ghost iter_pos = p.at();
        p.skip_newlines();
        if p.is_end() {
            proof {
                assert(sp_block_items(tv, iter_pos) == Err::<(Seq<SpecDecl>, int), SpecDiag>(
                    perr("expected }"@),
                ));
            }
            return Err(mk_perr("expected }"));
        }
        match p.peek() {
            Some(SyntaxKind::RBrace) => {
                p.consume();
                proof {
                    assert(sp_block_items(tv, iter_pos) == Ok::<(Seq<SpecDecl>, int), SpecDiag>(
                        (Seq::empty(), p.at() as int),
                    ));
                    assert(view_decls(out@) + Seq::<SpecDecl>::empty() =~= view_decls(out@));
                }
                return Ok(out);
            },
            _ => {},
        }
        let d = match Decl::new(p) {
            Err(e) => {
                proof {
                    assert(sp_block_items(tv, iter_pos) == Err::<(Seq<SpecDecl>, int), SpecDiag>(
                        e@,
                    ));
                }
                return Err(e);
            },
            Ok(d) => d,
        };
        proof {
            let ghost dv = crate::ast::view_decl(d);
            assert(sp_decl(tv, skip_newlines_s(tv, iter_pos)) == Ok::<(SpecDecl, int), SpecDiag>(
                (dv, p.at()),
            ));
            let ghost c = sp_block_items(tv, p.at());
            assert(sp_block_items(tv, iter_pos) == (match c {
                Ok((rest, q)) => Ok::<(Seq<SpecDecl>, int), SpecDiag>((seq![dv] + rest, q)),
                Err(d0) => Err::<(Seq<SpecDecl>, int), SpecDiag>(d0),
            }));
            lemma_view_decls_push(out@, d);
            match c {
                Ok((rest, q)) => {
                    assert(view_decls(out@) + (seq![dv] + rest) =~= view_decls(out@.push(d))
                        + rest);
                },
                Err(_) => {},
            }
        }
        out.push(d);
    }
}

/// The parameter run never moves backwards or past the end.
pub proof fn lemma_sp_params_advances(ts: Seq<Tok>, pos: int)
    ensures
        pos <= sp_params(ts, pos).1,
        pos <= ts.len() ==> sp_params(ts, pos).1 <= ts.len(),
    decreases ts.len() - pos,
{
    if 0 <= pos < ts.len() && ts[pos].0 == SyntaxKind::Ident {
        lemma_sp_params_advances(ts, pos + 1);
    }
}

/// A parsed declaration always consumes at least one token and never runs
/// past the end; so the termination guards around it never fire.
pub proof fn lemma_sp_decl_advances(ts: Seq<Tok>, pos: int)
    ensures
        match sp_decl(ts, pos) {
            Ok((_, p)) => pos < p <= ts.len(),
            Err(_) => true,
        },
    decreases ts.len() - pos, 4int,
{
    if 0 <= pos < ts.len() {
        if ts[pos].0 == SyntaxKind::LetKw {
            if pos + 2 < ts.len() && ts[pos + 1].0 == SyntaxKind::Ident && ts[pos + 2].0
                == SyntaxKind::Equals {
                crate::parser::expr::lemma_sp_expr_advances(ts, pos + 3, 0);
            }
        } else if ts[pos].0 == SyntaxKind::FnKw {
            if pos + 1 < ts.len() && ts[pos + 1].0 == SyntaxKind::Ident {
                lemma_sp_params_advances(ts, pos + 2);
                let (ps, p1) = sp_params(ts, pos + 2);
                if !(p1 < pos + 2 || p1 > ts.len()) {
                    if p1 + 1 < ts.len() && ts[p1].0 == SyntaxKind::Equals && ts[p1 + 1].0
                        == SyntaxKind::GreaterThan {
                        crate::parser::stmt::lemma_sp_stmt_advances(ts, p1 + 2);
                    }
                }
            }
        } else {
            crate::parser::stmt::lemma_sp_stmt_advances(ts, pos);
        }
    }
}

/// A parsed block body always consumes at least its closing brace and
/// never runs past the end.
pub proof fn lemma_sp_block_items_advances(ts: Seq<Tok>, pos: int)
    ensures
        match sp_block_items(ts, pos) {
            Ok((_, p)) => pos < p <= ts.len(),
            Err(_) => true,
        },
    decreases ts.len() - pos, 5int,
{
    let q = skip_newlines_s(ts, pos);
    if q < ts.len() && ts[q].0 != SyntaxKind::RBrace {
        lemma_sp_decl_advances(ts, q);
        match sp_decl(ts, q) {
            Err(_) => {},
            Ok((_, p1)) => {
                if !(p1 <= pos || p1 > ts.len()) {
                    lemma_sp_block_items_advances(ts, p1);
                }
            },
        }
    }
}

} // verus!

