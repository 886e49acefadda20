//! The parser: a token cursor over the lexed input and the top-level entry
//! point that turns a source string into a sequence of declarations.
//!
//! The executable parser is proved equal to a mathematical model (the
//! `sp_...` functions): the same input always gives the same tree, and the
//! model is what the grammar laws are stated over.

pub mod decl;
pub mod expr;
pub mod stmt;

use vstd::prelude::*;
use vstd::string::*;

use crate::ast::{Decl, SpecDecl, view_decls, lemma_view_decls_push};
use crate::diag::{DiagKind, Diagnostic, SpecDiag};
use crate::lexer::{SyntaxKind, Token, lex, lex_spec, tokens_view};
use crate::parser::decl::sp_decl;

verus! {

/// A lexed token in the model: its kind and its lexeme.
pub type Tok = (SyntaxKind, Seq<char>);

/// An error from the parser: a lex- or parse-kind diagnostic.
#[derive(Debug, PartialEq)]
pub struct ParseError {
    pub kind: DiagKind,
    pub msg: String,
}

impl View for ParseError {
    type V = SpecDiag;

    open spec fn view(&self) -> SpecDiag {
        SpecDiag { kind: self.kind, msg: self.msg@ }
    }
}

impl ParseError {
    /// The same error as a diagnostic record.
    pub fn into_diagnostic(self) -> (r: Diagnostic)
        ensures
            r@ == self@,
    {
        Diagnostic { kind: self.kind, msg: self.msg }
    }
}

/// A parse error with the given message.
pub open spec fn perr(msg: Seq<char>) -> SpecDiag {
    SpecDiag { kind: DiagKind::ParseError, msg }
}

/// The diagnostic for an unrecognised piece of input.
pub open spec fn lex_error_diag(text: Seq<char>) -> SpecDiag {
    SpecDiag { kind: DiagKind::LexError, msg: "unrecognised input: "@ + text }
}

/// A guard value for the model's termination argument. The advancement
/// lemmas (`lemma_sp_..._advances`) show that every guarded position does
/// advance, so the guards never take this branch, and the executable
/// parser never returns it.
pub open spec fn stalled() -> SpecDiag {
    perr("parser stalled"@)
}

pub open spec fn not_ws(t: Tok) -> bool {
    t.0 != SyntaxKind::Whitespace
}

/// The parser's token stream: the lexer's output with whitespace dropped.
/// Newlines stay visible; they terminate declarations.
pub open spec fn filter_ws(ts: Seq<Tok>) -> Seq<Tok> {
    ts.filter(|t: Tok| not_ws(t))
}

/// How many consecutive newline tokens start at `pos`.
pub open spec fn newline_run(ts: Seq<Tok>, pos: int) -> nat
    decreases ts.len() - pos,
{
    if 0 <= pos < ts.len() && ts[pos].0 == SyntaxKind::Newline {
        (1 + newline_run(ts, pos + 1)) as nat
    } else {
        0
    }
}

/// The position after the newline tokens starting at `pos`.
pub open spec fn skip_newlines_s(ts: Seq<Tok>, pos: int) -> int {
    if pos + newline_run(ts, pos) <= ts.len() {
        pos + newline_run(ts, pos)
    } else {
        pos
    }
}

pub proof fn lemma_newline_run_bound(ts: Seq<Tok>, pos: int)
    requires
        0 <= pos <= ts.len(),
    ensures
        pos + newline_run(ts, pos) <= ts.len(),
        skip_newlines_s(ts, pos) == pos + newline_run(ts, pos),
    decreases ts.len() - pos,
{
    if pos < ts.len() && ts[pos].0 == SyntaxKind::Newline {
        lemma_newline_run_bound(ts, pos + 1);
    }
}

/// Where a declaration ends: at a newline (consumed), at the end of the
/// input, or just before the `}` that closes the surrounding block.
pub open spec fn sp_term(ts: Seq<Tok>, pos: int) -> Result<int, SpecDiag> {
    if pos >= ts.len() {
        Ok(pos)
    } else if ts[pos].0 == SyntaxKind::Newline {
        Ok(pos + 1)
    } else if ts[pos].0 == SyntaxKind::RBrace {
        Ok(pos)
    } else {
        Err(perr("expected newline after declaration"@))
    }
}

/// The program: declarations separated by newlines, to the end of the
/// input.
pub open spec fn sp_program(ts: Seq<Tok>, pos: int) -> Result<Seq<SpecDecl>, SpecDiag>
    decreases ts.len() - pos, 5int,
{
    let p = skip_newlines_s(ts, pos);
    if p >= ts.len() {
        Ok(Seq::empty())
    } else {
        match sp_decl(ts, p) {
            Err(d) => Err(d),
            Ok((d, p1)) => {
                if p1 <= pos || p1 > ts.len() {
                    Err(stalled())
                } else {
                    match sp_program(ts, p1) {
                        Err(e) => Err(e),
                        Ok(rest) => Ok(seq![d] + rest),
                    }
                }
            },
        }
    }
}

/// What parsing a whole source string yields.
pub open spec fn spec_parse(input: Seq<char>) -> Result<Seq<SpecDecl>, SpecDiag> {
    sp_program(filter_ws(lex_spec(input)), 0)
}

/// Parsing is deterministic: identical input strings give structurally
/// identical results. The executable parser returns exactly
/// `spec_parse` of its input, so two runs over equal strings agree.
pub proof fn lemma_parse_deterministic(s1: Seq<char>, s2: Seq<char>)
    requires
        s1 == s2,
    ensures
        spec_parse(s1) == spec_parse(s2),
{
}

/// The result of a successful parse: the program's declarations.
#[derive(Debug, PartialEq)]
pub struct Parse {
    pub declarations: Vec<Decl>,
}

impl View for Parse {
    type V = Seq<SpecDecl>;

    open spec fn view(&self) -> Seq<SpecDecl> {
        view_decls(self.declarations@)
    }
}

/// The token cursor: a position in the whitespace-filtered token stream.
pub struct Parser<'a> {
    tokens: Vec<Token<'a>>,
    pos: usize,
}

impl<'a> Parser<'a> {
    /// The model of the cursor's token stream.
    pub closed spec fn toks(&self) -> Seq<Tok> {
        tokens_view(self.tokens@)
    }

    /// The cursor's position.
    pub closed spec fn at(&self) -> int {
        self.pos as int
    }

    /// The cursor never stands past the end of the stream.
    pub open spec fn wf(&self) -> bool {
        0 <= self.at() <= self.toks().len()
    }

    proof fn lemma_toks_len(&self)
        ensures
            self.toks().len() == self.tokens@.len(),
            forall|i: int| 0 <= i < self.tokens@.len() ==> #[trigger] self.toks()[i] == (
                self.tokens@[i].kind,
                self.tokens@[i].text@,
            ),
    {
    }

    /// Lex a source string and position the cursor at its start.
    pub fn new(s: &'a str) -> (p: Parser<'a>)
        ensures
            p.wf(),
            p.at() == 0,
            p.toks() == filter_ws(lex_spec(s@)),
    {
        let raw = lex(s);
        let mut tokens: Vec<Token<'a>> = Vec::new();
        let n = raw.len();
        let mut i: usize = 0;
        proof {
            reveal_with_fuel(Seq::filter, 2);
            assert(tokens_view(raw@.subrange(0, 0)) =~= Seq::<Tok>::empty());
            assert(filter_ws(Seq::<Tok>::empty()) =~= Seq::<Tok>::empty());
            assert(filter_ws(tokens_view(raw@.subrange(0, 0))) =~= Seq::<Tok>::empty());
            assert(tokens_view(tokens@) =~= Seq::<Tok>::empty());
        }
        while i < n
            invariant
                0 <= i <= n,
                n == raw@.len(),
                tokens_view(tokens@) == filter_ws(tokens_view(raw@.subrange(0, i as int))),
            decreases n - i,
        {
            let t = raw[i];
            proof {
                reveal_with_fuel(Seq::filter, 2);
                let prefix = tokens_view(raw@.subrange(0, i as int));
                let prefix1 = tokens_view(raw@.subrange(0, i + 1));
                assert(raw@.subrange(0, i + 1).drop_last() =~= raw@.subrange(0, i as int));
                assert(prefix1 =~= prefix.push(t@));
                assert(prefix1.drop_last() =~= prefix);
                assert(prefix1.last() == t@);
                if not_ws(t@) {
                    assert(filter_ws(prefix1) =~= filter_ws(prefix).push(t@));
                } else {
                    assert(filter_ws(prefix1) =~= filter_ws(prefix));
                }
            }
            if !matches!(t.kind, SyntaxKind::Whitespace) {
                tokens.push(t);
                proof {
                    assert(tokens_view(tokens@) =~= tokens_view(tokens@.drop_last()).push(t@));
                }
            }
            i = i + 1;
        }
        proof {
            assert(raw@.subrange(0, n as int) =~= raw@);
        }
        Parser { tokens, pos: 0 }
    }

    /// The kind of the token under the cursor, if any.
    pub fn peek(&self) -> (r: Option<SyntaxKind>)
        requires
            self.wf(),
        ensures
            r == (if self.at() < self.toks().len() {
                Some(self.toks()[self.at()].0)
            } else {
                None::<SyntaxKind>
            }),
    {
        proof {
            self.lemma_toks_len();
        }
        if self.pos < self.tokens.len() {
            Some(self.tokens[self.pos].kind)
        } else {
            None
        }
    }

    /// The kind of the token one past the cursor, if any.
    pub fn peek_second(&self) -> (r: Option<SyntaxKind>)
        requires
            self.wf(),
        ensures
            r == (if self.at() + 1 < self.toks().len() {
                Some(self.toks()[self.at() + 1].0)
            } else {
                None::<SyntaxKind>
            }),
    {
        proof {
            self.lemma_toks_len();
        }
        if self.pos < self.tokens.len() && self.pos + 1 < self.tokens.len() {
            Some(self.tokens[self.pos + 1].kind)
        } else {
            None
        }
    }

    /// Take the token under the cursor and step past it.
    pub fn next(&mut self) -> (r: (SyntaxKind, &'a str))
        requires
            old(self).wf(),
            old(self).at() < old(self).toks().len(),
        ensures
            final(self).wf(),
            final(self).toks() == old(self).toks(),
            final(self).at() == old(self).at() + 1,
            r.0 == old(self).toks()[old(self).at()].0,
            r.1@ == old(self).toks()[old(self).at()].1,
    {
        proof {
            self.lemma_toks_len();
        }
        let n = self.tokens.len();
        assert(self.pos < n);
        let t = self.tokens[self.pos];
        self.pos = self.pos + 1;
        (t.kind, t.text)
    }

    /// Step past the token under the cursor.
    pub fn consume(&mut self)
        requires
            old(self).wf(),
            old(self).at() < old(self).toks().len(),
        ensures
            final(self).wf(),
            final(self).toks() == old(self).toks(),
            final(self).at() == old(self).at() + 1,
    {
        proof {
            self.lemma_toks_len();
        }
        let n = self.tokens.len();
        assert(self.pos < n);
        self.pos = self.pos + 1;
    }

    /// Take the token under the cursor if it has the wanted kind; report
    /// it otherwise.
    pub fn expect(&mut self, sk: SyntaxKind) -> (r: Result<&'a str, ParseError>)
        requires
            old(self).wf(),
        ensures
            final(self).wf(),
            final(self).toks() == old(self).toks(),
            match r {
                Ok(text) => old(self).at() < old(self).toks().len() && old(self).toks()[old(
                    self,
                ).at()].0 == sk && text@ == old(self).toks()[old(self).at()].1 && final(self).at()
                    == old(self).at() + 1,
                Err(e) => (old(self).at() >= old(self).toks().len() || old(self).toks()[old(
                    self,
                ).at()].0 != sk) && final(self).at() == old(self).at() && e@ == perr(
                    "unexpected token"@,
                ),
            },
    {
        proof {
            self.lemma_toks_len();
        }
        if self.pos < self.tokens.len() {
            let t = self.tokens[self.pos];
            if t.kind == sk {
                self.pos = self.pos + 1;
                return Ok(t.text);
            }
        }
        Err(ParseError { kind: DiagKind::ParseError, msg: String::from_str("unexpected token") })
    }

    /// Whether the cursor is past the last token.
    pub fn is_end(&self) -> (r: bool)
        requires
            self.wf(),
        ensures
            r == (self.at() >= self.toks().len()),
    {
        proof {
            self.lemma_toks_len();
        }
        self.pos >= self.tokens.len()
    }

    /// Step past any newline tokens.
    pub fn skip_newlines(&mut self)
        requires
            old(self).wf(),
        ensures
            final(self).wf(),
            final(self).toks() == old(self).toks(),
            final(self).at() == skip_newlines_s(old(self).toks(), old(self).at()),
            final(self).at() >= old(self).at(),
    {
        proof {
            self.lemma_toks_len();
            lemma_newline_run_bound(self.toks(), self.at());
        }
        let n = self.tokens.len();
        while self.pos < n && matches!(self.tokens[self.pos].kind, SyntaxKind::Newline)
            invariant
                old(self).wf(),
                self.toks() == old(self).toks(),
                self.tokens@.len() == n,
                old(self).at() <= self.at() <= n,
                skip_newlines_s(old(self).toks(), old(self).at()) == skip_newlines_s(
                    self.toks(),
                    self.at(),
                ),
            decreases n - self.pos,
        {
            proof {
                self.lemma_toks_len();
                lemma_newline_run_bound(self.toks(), self.at());
                lemma_newline_run_bound(self.toks(), self.at() + 1);
                assert(newline_run(self.toks(), self.at()) == 1 + newline_run(
                    self.toks(),
                    self.at() + 1,
                ));
            }
            self.pos = self.pos + 1;
        }
        proof {
            lemma_newline_run_bound(self.toks(), self.at());
            assert(newline_run(self.toks(), self.at()) == 0);
        }
    }

    /// Consume a declaration terminator: a newline, the end of the input,
    /// or nothing before a closing `}`.
    pub fn terminator(&mut self) -> (r: Result<(), ParseError>)
        requires
            old(self).wf(),
        ensures
            final(self).wf(),
            final(self).toks() == old(self).toks(),
            match r {
                Ok(()) => sp_term(old(self).toks(), old(self).at()) == Ok::<int, SpecDiag>(
                    final(self).at(),
                ) && final(self).at() >= old(self).at(),
                Err(e) => sp_term(old(self).toks(), old(self).at()) == Err::<int, SpecDiag>(e@)
                    && final(self).at() == old(self).at(),
            },
    {
        proof {
            self.lemma_toks_len();
        }
        if self.pos >= self.tokens.len() {
            Ok(())
        } else {
            let k = self.tokens[self.pos].kind;
            if matches!(k, SyntaxKind::Newline) {
                self.pos = self.pos + 1;
                Ok(())
            } else if matches!(k, SyntaxKind::RBrace) {
                Ok(())
            } else {
                Err(
                    ParseError {
                        kind: DiagKind::ParseError,
                        msg: String::from_str("expected newline after declaration"),
                    },
                )
            }
        }
    }

    /// Parse the whole token stream as a program.
    #[verifier::loop_isolation(false)]
    pub fn parse(self) -> (r: Result<Parse, ParseError>)
        requires
            self.wf(),
        ensures
            match r {
                Ok(pr) => sp_program(self.toks(), self.at()) == Ok::<Seq<SpecDecl>, SpecDiag>(pr@),
                Err(e) => sp_program(self.toks(), self.at()) == Err::<Seq<SpecDecl>, SpecDiag>(e@),
            },
    {
        let ghost tv = self.toks();
        let ghost pos0 = self.at();
        let mut this = self;
        let mut decls: Vec<Decl> = Vec::new();
        proof {
            let ghost c = sp_program(tv, pos0);
            assert(view_decls(decls@) =~= Seq::<SpecDecl>::empty());
            match c {
                Ok(rest) => {
                    assert(view_decls(decls@) + rest =~= rest);
                },
                Err(_) => {},
            }
        }
        loop
            invariant
                this.wf(),
                this.toks() == tv,
                this.at() >= pos0,
                sp_program(tv, pos0) == (match sp_program(tv, this.at()) {
                    Ok(rest) => Ok::<Seq<SpecDecl>, SpecDiag>(view_decls(decls@) + rest),
                    Err(d) => Err::<Seq<SpecDecl>, SpecDiag>(d),
                }),
            decreases tv.len() - this.at(),
        {
            let ghost iter_pos = this.at();
            this.skip_newlines();
            if this.is_end() {
                proof {
                    assert(sp_program(tv, iter_pos) == Ok::<Seq<SpecDecl>, SpecDiag>(
                        Seq::empty(),
                    ));
                    assert(view_decls(decls@) + Seq::<SpecDecl>::empty() =~= view_decls(decls@));
                }
                return Ok(Parse { declarations: decls });
            }
            let d = match crate::ast::Decl::new(&mut this) {
                Err(e) => {
                    proof {
                        assert(sp_program(tv, iter_pos) == Err::<Seq<SpecDecl>, SpecDiag>(e@));
                    }
                    return Err(e);
                },
                Ok(d) => d,
            };
            proof {
                let ghost dv = crate::ast::view_decl(d);
                assert(sp_decl(tv, skip_newlines_s(tv, iter_pos)) == Ok::<(SpecDecl, int), SpecDiag>(
                    (dv, this.at()),
                ));
                let ghost c = sp_program(tv, this.at());
                assert(sp_program(tv, iter_pos) == (match c {
                    Ok(rest) => Ok::<Seq<SpecDecl>, SpecDiag>(seq![dv] + rest),
                    Err(d0) => Err::<Seq<SpecDecl>, SpecDiag>(d0),
                }));
                lemma_view_decls_push(decls@, d);
                match c {
                    Ok(rest) => {
                        assert(view_decls(decls@) + (seq![dv] + rest) =~= view_decls(
                            decls@.push(d),
                        ) + rest);
                    },
                    Err(_) => {},
                }
            }
            decls.push(d);
        }
    }
}

} // verus!
