//! The statement parser. A statement is an expression evaluated for its
//! value; the level exists so that blocks and function bodies have a named
//! grammar entry to grow from.

use vstd::prelude::*;

use crate::ast::{SpecStmt, Stmt};
use crate::diag::SpecDiag;
use crate::parser::expr::sp_expr;
use crate::parser::{ParseError, Parser, Tok};

verus! {

/// A statement: an expression.
pub open spec fn sp_stmt(ts: Seq<Tok>, pos: int) -> Result<(SpecStmt, int), SpecDiag>
    decreases ts.len() - pos, 3int,
{
    match sp_expr(ts, pos, 0) {
        Err(d) => Err(d),
        Ok((e, p)) => Ok((SpecStmt::Expr(e), p)),
    }
}

impl Stmt {
    /// Parse one statement from the cursor.
    pub fn new(p: &mut Parser) -> (r: Result<Stmt, ParseError>)
        requires
            old(p).wf(),
        ensures
            final(p).wf(),
            final(p).toks() == old(p).toks(),
            match r {
                Ok(st) => sp_stmt(old(p).toks(), old(p).at()) == Ok::<(SpecStmt, int), SpecDiag>(
                    (st@, final(p).at()),
                ) && old(p).at() < final(p).at(),
                Err(e) => sp_stmt(old(p).toks(), old(p).at()) == Err::<(SpecStmt, int), SpecDiag>(
                    e@,
                ),
            },
        decreases p.toks().len() - p.at(), 3int,
    {
        match crate::parser::expr::expr_binding_power(p, 0) {
            Err(e) => Err(e),
            Ok(e) => Ok(Stmt::Expr(e)),
        }
    }
}

/// A parsed statement always consumes at least one token and never runs
/// past the end.
pub proof fn lemma_sp_stmt_advances(ts: Seq<Tok>, pos: int)
    ensures
        match sp_stmt(ts, pos) {
            Ok((_, p)) => pos < p <= ts.len(),
            Err(_) => true,
        },
    decreases ts.len() - pos, 3int,
{
    crate::parser::expr::lemma_sp_expr_advances(ts, pos, 0);
}

} // verus!

