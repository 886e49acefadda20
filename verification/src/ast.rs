//! The abstract syntax tree: literals, operators, expressions, statements
//! and declarations, together with their mathematical models (the `Spec...`
//! types reached through `@`), deep clones, and the pretty printer.

use vstd::prelude::*;
use vstd::string::*;

use crate::lexer::SyntaxKind;
use crate::lexer::is_digit_char;

verus! {

/// A literal: number, identifier reference, string, or boolean.
#[derive(Debug, PartialEq)]
pub enum Literal {
    NUMBER(i64),
    IDENT(String),
    STRING(String),
    TRUE,
    FALSE,
}

/// A prefix operator.
#[derive(Debug, Clone, Copy, PartialEq, Eq, Structural)]
pub enum PrefixOp {
    Neg,
    Not,
}

/// An infix operator.
#[derive(Debug, Clone, Copy, PartialEq, Eq, Structural)]
pub enum InfixOp {
    Add,
    Sub,
    Mul,
    Div,
}

/// An expression tree.
#[derive(Debug, PartialEq)]
pub enum Expr {
    Literal(Literal),
    Unary(PrefixOp, Box<Expr>),
    Binary(Box<Expr>, InfixOp, Box<Expr>),
    Grouping(Box<Expr>),
    Block(Vec<Decl>),
    Call { callee: String, args: Vec<Expr> },
}

/// A statement. Currently a statement is an expression evaluated for its
/// value; the wrapper keeps the grammar's statement level explicit.
#[derive(Debug, PartialEq)]
pub enum Stmt {
    Expr(Expr),
}

/// A top-level (or block-level) declaration.
#[derive(Debug, PartialEq)]
pub enum Decl {
    Let { name: String, init: Expr },
    Func { name: String, params: Vec<String>, body: Stmt },
    Stmt(Stmt),
}

/// Model of a literal.
pub enum SpecLiteral {
    Num(i64),
    Ident(Seq<char>),
    Str(Seq<char>),
    True,
    False,
}

/// Model of an expression.
pub enum SpecExpr {
    Literal(SpecLiteral),
    Unary(PrefixOp, Box<SpecExpr>),
    Binary(Box<SpecExpr>, InfixOp, Box<SpecExpr>),
    Grouping(Box<SpecExpr>),
    Block(Seq<SpecDecl>),
    Call(Seq<char>, Seq<SpecExpr>),
}

/// Model of a statement.
pub enum SpecStmt {
    Expr(SpecExpr),
}

/// Model of a declaration.
pub enum SpecDecl {
    Let(Seq<char>, SpecExpr),
    Func(Seq<char>, Seq<Seq<char>>, SpecStmt),
    Stmt(SpecStmt),
}

pub open spec fn view_literal(l: Literal) -> SpecLiteral {
    match l {
        Literal::NUMBER(n) => SpecLiteral::Num(n),
        Literal::IDENT(s) => SpecLiteral::Ident(s@),
        Literal::STRING(s) => SpecLiteral::Str(s@),
        Literal::TRUE => SpecLiteral::True,
        Literal::FALSE => SpecLiteral::False,
    }
}

pub open spec fn view_names(ps: Seq<String>) -> Seq<Seq<char>> {
    ps.map_values(|p: String| p@)
}

pub open spec fn view_expr(e: Expr) -> SpecExpr
    decreases e,
{
    match e {
        Expr::Literal(l) => SpecExpr::Literal(view_literal(l)),
        Expr::Unary(op, inner) => SpecExpr::Unary(op, Box::new(view_expr(*inner))),
        Expr::Binary(lhs, op, rhs) => SpecExpr::Binary(
            Box::new(view_expr(*lhs)),
            op,
            Box::new(view_expr(*rhs)),
        ),
        Expr::Grouping(inner) => SpecExpr::Grouping(Box::new(view_expr(*inner))),
        Expr::Block(decls) => SpecExpr::Block(view_decls(decls@)),
        Expr::Call { callee, args } => SpecExpr::Call(callee@, view_exprs(args@)),
    }
}

pub open spec fn view_exprs(es: Seq<Expr>) -> Seq<SpecExpr>
    decreases es,
{
    if es.len() == 0 {
        Seq::empty()
    } else {
        seq![view_expr(es[0])] + view_exprs(es.subrange(1, es.len() as int))
    }
}

pub open spec fn view_stmt(s: Stmt) -> SpecStmt
    decreases s,
{
    match s {
        Stmt::Expr(e) => SpecStmt::Expr(view_expr(e)),
    }
}

pub open spec fn view_decl(d: Decl) -> SpecDecl
    decreases d,
{
    match d {
        Decl::Let { name, init } => SpecDecl::Let(name@, view_expr(init)),
        Decl::Func { name, params, body } => SpecDecl::Func(
            name@,
            view_names(params@),
            view_stmt(body),
        ),
        Decl::Stmt(s) => SpecDecl::Stmt(view_stmt(s)),
    }
}

pub open spec fn view_decls(ds: Seq<Decl>) -> Seq<SpecDecl>
    decreases ds,
{
    if ds.len() == 0 {
        Seq::empty()
    } else {
        seq![view_decl(ds[0])] + view_decls(ds.subrange(1, ds.len() as int))
    }
}

impl View for Literal {
    type V = SpecLiteral;

    open spec fn view(&self) -> SpecLiteral {
        view_literal(*self)
    }
}

impl View for Expr {
    type V = SpecExpr;

    open spec fn view(&self) -> SpecExpr {
        view_expr(*self)
    }
}

impl View for Stmt {
    type V = SpecStmt;

    open spec fn view(&self) -> SpecStmt {
        view_stmt(*self)
    }
}

impl View for Decl {
    type V = SpecDecl;

    open spec fn view(&self) -> SpecDecl {
        view_decl(*self)
    }
}

/// The element-wise view of a sequence of declarations, usable on `Vec` views.
pub proof fn lemma_view_decls_index(ds: Seq<Decl>, i: int)
    requires
        0 <= i < ds.len(),
    ensures
        view_decls(ds).len() == ds.len(),
        view_decls(ds)[i] == view_decl(ds[i]),
    decreases ds.len(),
{
    lemma_view_decls_len(ds);
    if i > 0 {
        lemma_view_decls_index(ds.subrange(1, ds.len() as int), i - 1);
    }
}

pub proof fn lemma_view_decls_len(ds: Seq<Decl>)
    ensures
        view_decls(ds).len() == ds.len(),
    decreases ds.len(),
{
    if ds.len() > 0 {
        lemma_view_decls_len(ds.subrange(1, ds.len() as int));
    }
}

pub proof fn lemma_view_exprs_index(es: Seq<Expr>, i: int)
    requires
        0 <= i < es.len(),
    ensures
        view_exprs(es).len() == es.len(),
        view_exprs(es)[i] == view_expr(es[i]),
    decreases es.len(),
{
    lemma_view_exprs_len(es);
    if i > 0 {
        lemma_view_exprs_index(es.subrange(1, es.len() as int), i - 1);
    }
}

pub proof fn lemma_view_exprs_len(es: Seq<Expr>)
    ensures
        view_exprs(es).len() == es.len(),
    decreases es.len(),
{
    if es.len() > 0 {
        lemma_view_exprs_len(es.subrange(1, es.len() as int));
    }
}

pub proof fn lemma_view_decls_push(ds: Seq<Decl>, d: Decl)
    ensures
        view_decls(ds.push(d)) == view_decls(ds).push(view_decl(d)),
{
    let whole = ds.push(d);
    lemma_view_decls_len(ds);
    lemma_view_decls_len(whole);
    assert forall|i: int| 0 <= i < whole.len() implies view_decls(whole)[i] == view_decls(ds).push(
        view_decl(d),
    )[i] by {
        lemma_view_decls_index(whole, i);
        if i < ds.len() {
            lemma_view_decls_index(ds, i);
            assert(whole[i] == ds[i]);
        } else {
            assert(whole[i] == d);
        }
    }
    assert(view_decls(whole) =~= view_decls(ds).push(view_decl(d)));
}

pub proof fn lemma_view_exprs_push(es: Seq<Expr>, e: Expr)
    ensures
        view_exprs(es.push(e)) == view_exprs(es).push(view_expr(e)),
{
    let whole = es.push(e);
    lemma_view_exprs_len(es);
    lemma_view_exprs_len(whole);
    assert forall|i: int| 0 <= i < whole.len() implies view_exprs(whole)[i] == view_exprs(es).push(
        view_expr(e),
    )[i] by {
        lemma_view_exprs_index(whole, i);
        if i < es.len() {
            lemma_view_exprs_index(es, i);
            assert(whole[i] == es[i]);
        } else {
            assert(whole[i] == e);
        }
    }
    assert(view_exprs(whole) =~= view_exprs(es).push(view_expr(e)));
}

impl Clone for Literal {
    fn clone(&self) -> (r: Self)
        ensures
            r == *self,
    {
        match self {
            Literal::NUMBER(n) => Literal::NUMBER(*n),
            Literal::IDENT(s) => Literal::IDENT(s.clone()),
            Literal::STRING(s) => Literal::STRING(s.clone()),
            Literal::TRUE => Literal::TRUE,
            Literal::FALSE => Literal::FALSE,
        }
    }
}

fn clone_expr(e: &Expr) -> (r: Expr)
    ensures
        view_expr(r) == view_expr(*e),
    decreases e,
{
    match e {
        Expr::Literal(l) => Expr::Literal(l.clone()),
        Expr::Unary(op, inner) => Expr::Unary(*op, Box::new(clone_expr(inner))),
        Expr::Binary(lhs, op, rhs) => Expr::Binary(
            Box::new(clone_expr(lhs)),
            *op,
            Box::new(clone_expr(rhs)),
        ),
        Expr::Grouping(inner) => Expr::Grouping(Box::new(clone_expr(inner))),
        Expr::Block(decls) => Expr::Block(clone_decls(decls)),
        Expr::Call { callee, args } => Expr::Call { callee: callee.clone(), args: clone_exprs(args) },
    }
}

fn clone_exprs(es: &Vec<Expr>) -> (r: Vec<Expr>)
    ensures
        view_exprs(r@) == view_exprs(es@),
    decreases es@,
{
    let mut r: Vec<Expr> = Vec::new();
    let n = es.len();
    let mut i: usize = 0;
    while i < n
        invariant
            0 <= i <= n,
            n == es@.len(),
            view_exprs(r@) == view_exprs(es@.subrange(0, i as int)),
        decreases n - i,
    {
        proof {
            assert(decreases_to!(es@ => es@[i as int]));
        }
        let c = clone_expr(&es[i]);
        proof {
            lemma_view_exprs_push(r@, c);
            lemma_view_exprs_push(es@.subrange(0, i as int), es@[i as int]);
            assert(es@.subrange(0, i + 1) =~= es@.subrange(0, i as int).push(es@[i as int]));
        }
        r.push(c);
        i = i + 1;
    }
    proof {
        assert(es@.subrange(0, n as int) =~= es@);
    }
    r
}

fn clone_decls(ds: &Vec<Decl>) -> (r: Vec<Decl>)
    ensures
        view_decls(r@) == view_decls(ds@),
    decreases ds@,
{
    let mut r: Vec<Decl> = Vec::new();
    let n = ds.len();
    let mut i: usize = 0;
    while i < n
        invariant
            0 <= i <= n,
            n == ds@.len(),
            view_decls(r@) == view_decls(ds@.subrange(0, i as int)),
        decreases n - i,
    {
        proof {
            assert(decreases_to!(ds@ => ds@[i as int]));
        }
        let c = clone_decl(&ds[i]);
        proof {
            lemma_view_decls_push(r@, c);
            lemma_view_decls_push(ds@.subrange(0, i as int), ds@[i as int]);
            assert(ds@.subrange(0, i + 1) =~= ds@.subrange(0, i as int).push(ds@[i as int]));
        }
        r.push(c);
        i = i + 1;
    }
    proof {
        assert(ds@.subrange(0, n as int) =~= ds@);
    }
    r
}

fn clone_stmt(s: &Stmt) -> (r: Stmt)
    ensures
        view_stmt(r) == view_stmt(*s),
    decreases s,
{
    match s {
        Stmt::Expr(e) => Stmt::Expr(clone_expr(e)),
    }
}

fn clone_decl(d: &Decl) -> (r: Decl)
    ensures
        view_decl(r) == view_decl(*d),
    decreases d,
{
    match d {
        Decl::Let { name, init } => Decl::Let { name: name.clone(), init: clone_expr(init) },
        Decl::Func { name, params, body } => Decl::Func {
            name: name.clone(),
            params: clone_names(params),
            body: clone_stmt(body),
        },
        Decl::Stmt(s) => Decl::Stmt(clone_stmt(s)),
    }
}

pub(crate) fn clone_names(ps: &Vec<String>) -> (r: Vec<String>)
    ensures
        r@ == ps@,
{
    let mut r: Vec<String> = Vec::new();
    let n = ps.len();
    let mut i: usize = 0;
    while i < n
        invariant
            0 <= i <= n,
            n == ps@.len(),
            r@ == ps@.subrange(0, i as int),
        decreases n - i,
    {
        r.push(ps[i].clone());
        proof {
            assert(r@ =~= ps@.subrange(0, i + 1));
        }
        i = i + 1;
    }
    proof {
        assert(ps@.subrange(0, n as int) =~= ps@);
    }
    r
}

impl Clone for Expr {
    fn clone(&self) -> (r: Self)
        ensures
            r@ == self@,
    {
        clone_expr(self)
    }
}

impl Clone for Stmt {
    fn clone(&self) -> (r: Self)
        ensures
            r@ == self@,
    {
        clone_stmt(self)
    }
}

impl Clone for Decl {
    fn clone(&self) -> (r: Self)
        ensures
            r@ == self@,
    {
        clone_decl(self)
    }
}

impl InfixOp {
    /// The operator's left and right binding power; higher binds tighter,
    /// and left < right makes each level left-associative.
    pub fn binding_power(&self) -> (r: (u8, u8))
        ensures
            r == infix_binding_power(*self),
    {
        match self {
            InfixOp::Add | InfixOp::Sub => (1, 2),
            InfixOp::Mul | InfixOp::Div => (3, 4),
        }
    }

    /// The operator's source spelling.
    pub fn stringify(&self) -> (r: String)
        ensures
            r@ == infix_str(*self),
    {
        let s = match self {
            InfixOp::Add => "+",
            InfixOp::Sub => "-",
            InfixOp::Mul => "*",
            InfixOp::Div => "/",
        };
        String::from_str(s)
    }
}

pub open spec fn infix_binding_power(op: InfixOp) -> (u8, u8) {
    match op {
        InfixOp::Add | InfixOp::Sub => (1u8, 2u8),
        InfixOp::Mul | InfixOp::Div => (3u8, 4u8),
    }
}

pub open spec fn infix_str(op: InfixOp) -> Seq<char> {
    match op {
        InfixOp::Add => "+"@,
        InfixOp::Sub => "-"@,
        InfixOp::Mul => "*"@,
        InfixOp::Div => "/"@,
    }
}

impl PrefixOp {
    /// The operator's right binding power (prefix operators have none on
    /// the left).
    pub fn binding_power(&self) -> (r: ((), u8))
        ensures
            r.1 == prefix_binding_power(*self),
    {
        match self {
            PrefixOp::Neg => ((), 5),
            PrefixOp::Not => ((), 5),
        }
    }

    /// The operator's source spelling.
    pub fn stringify(&self) -> (r: String)
        ensures
            r@ == prefix_str(*self),
    {
        let s = match self {
            PrefixOp::Neg => "-",
            PrefixOp::Not => "!",
        };
        String::from_str(s)
    }

    /// The prefix operator a token kind denotes.
    pub fn from_kind(sk: SyntaxKind) -> (r: PrefixOp)
        requires
            sk == SyntaxKind::Bang || sk == SyntaxKind::Minus,
        ensures
            r == (if sk == SyntaxKind::Bang {
                PrefixOp::Not
            } else {
                PrefixOp::Neg
            }),
    {
        match sk {
            SyntaxKind::Bang => PrefixOp::Not,
            _ => PrefixOp::Neg,
        }
    }
}

pub open spec fn prefix_binding_power(op: PrefixOp) -> u8 {
    5u8
}

pub open spec fn prefix_str(op: PrefixOp) -> Seq<char> {
    match op {
        PrefixOp::Neg => "-"@,
        PrefixOp::Not => "!"@,
    }
}

/// The numeric value of a digit string, most significant digit first.
pub open spec fn digits_val(s: Seq<char>) -> nat
    decreases s.len(),
{
    if s.len() == 0 {
        0
    } else {
        (digits_val(s.drop_last()) * 10 + (s.last() as u32 - 48)) as nat
    }
}

/// Whether `s` is one or more ASCII digits.
pub open spec fn is_digits(s: Seq<char>) -> bool {
    s.len() > 0 && forall|i: int| 0 <= i < s.len() ==> is_digit_char(#[trigger] s[i])
}

/// The number a digit string denotes, if it fits the numeric type.
pub open spec fn parse_number(s: Seq<char>) -> Option<i64> {
    if is_digits(s) && digits_val(s) <= i64::MAX {
        Some(digits_val(s) as i64)
    } else {
        None
    }
}

pub(crate) proof fn lemma_digits_val_prefix_le(s: Seq<char>, k: int)
    requires
        0 <= k <= s.len(),
        forall|i: int| 0 <= i < s.len() ==> is_digit_char(#[trigger] s[i]),
    ensures
        digits_val(s.subrange(0, k)) <= digits_val(s),
    decreases s.len() - k,
{
    if k < s.len() {
        let t = s.subrange(0, k + 1);
        assert(t.drop_last() =~= s.subrange(0, k));
        assert(is_digit_char(t.last()));
        assert(digits_val(t) == digits_val(s.subrange(0, k)) * 10 + (t.last() as u32 - 48));
        assert(digits_val(s.subrange(0, k)) <= digits_val(t));
        lemma_digits_val_prefix_le(s, k + 1);
        assert(s.subrange(0, s.len() as int) =~= s);
    } else {
        assert(s.subrange(0, k) =~= s);
    }
}

/// Read a digit string as a number, in executable code.
pub fn parse_number_exec(s: &str) -> (r: Option<i64>)
    ensures
        r == parse_number(s@),
{
    let n = s.unicode_len();
    if n == 0 {
        return None;
    }
    let mut acc: u64 = 0;
    let mut k: usize = 0;
    while k < n
        invariant
            0 < n == s@.len(),
            0 <= k <= n,
            acc == digits_val(s@.subrange(0, k as int)),
            acc <= i64::MAX,
            forall|i: int| 0 <= i < k ==> is_digit_char(#[trigger] s@[i]),
        decreases n - k,
    {
        let c = s.get_char(k);
        let u = c as u32;
        if !(48 <= u && u <= 57) {
            return None;
        }
        let d = (u - 48) as u64;
        proof {
            assert(s@.subrange(0, k + 1).drop_last() =~= s@.subrange(0, k as int));
        }
        if acc > 922337203685477580u64 || (acc == 922337203685477580u64 && d > 7) {
            proof {
                assert(s@.subrange(0, k + 1).last() == s@[k as int]);
                assert(digits_val(s@.subrange(0, k + 1)) == acc * 10 + d);
                assert(digits_val(s@.subrange(0, k + 1)) > i64::MAX);
                if is_digits(s@) {
                    lemma_digits_val_prefix_le(s@, k + 1);
                }
            }
            return None;
        }
        acc = acc * 10 + d;
        k = k + 1;
    }
    proof {
        assert(s@.subrange(0, n as int) =~= s@);
    }
    Some(acc as i64)
}

impl Literal {
    /// Build the literal a token denotes. A number token must fit the
    /// numeric type; the caller checks that first.
    pub fn new(sk: SyntaxKind, s: &str) -> (r: Literal)
        requires
            sk == SyntaxKind::TrueKw || sk == SyntaxKind::FalseKw || sk == SyntaxKind::Ident || sk
                == SyntaxKind::Number || sk == SyntaxKind::StringKw,
            sk == SyntaxKind::Number ==> parse_number(s@) is Some,
            sk == SyntaxKind::StringKw ==> s@.len() >= 2,
        ensures
            r@ == spec_literal_new(sk, s@),
    {
        match sk {
            SyntaxKind::TrueKw => Literal::TRUE,
            SyntaxKind::FalseKw => Literal::FALSE,
            SyntaxKind::Ident => Literal::IDENT(String::from_str(s)),
            SyntaxKind::Number => {
                let v = parse_number_exec(s);
                match v {
                    Some(n) => Literal::NUMBER(n),
                    None => Literal::NUMBER(0),  // unreachable under the precondition
                }
            },
            _ => {
                // a string literal: strip the quotes
                let n = s.unicode_len();
                let inner = s.substring_char(1, n - 1);
                Literal::STRING(String::from_str(inner))
            },
        }
    }
}

/// The literal a token denotes: keywords give booleans, a number token its
/// value, a string token its contents with the quotes stripped.
pub open spec fn spec_literal_new(sk: SyntaxKind, s: Seq<char>) -> SpecLiteral {
    if sk == SyntaxKind::TrueKw {
        SpecLiteral::True
    } else if sk == SyntaxKind::FalseKw {
        SpecLiteral::False
    } else if sk == SyntaxKind::Ident {
        SpecLiteral::Ident(s)
    } else if sk == SyntaxKind::Number {
        SpecLiteral::Num(parse_number(s).unwrap())
    } else {
        SpecLiteral::Str(s.subrange(1, s.len() - 1))
    }
}

/// The literal a bare lexeme denotes: `true` and `false` give booleans, a
/// digit string its number, anything else a string.
pub open spec fn spec_new_literal(s: Seq<char>) -> SpecLiteral {
    if s == "true"@ {
        SpecLiteral::True
    } else if s == "false"@ {
        SpecLiteral::False
    } else if parse_number(s) is Some {
        SpecLiteral::Num(parse_number(s).unwrap())
    } else {
        SpecLiteral::Str(s)
    }
}

/// Classify a bare lexeme as a literal.
pub fn new_literal(s: &str) -> (r: Literal)
    ensures
        r@ == spec_new_literal(s@),
{
    if crate::lexer::str_eq(s, "true") {
        Literal::TRUE
    } else if crate::lexer::str_eq(s, "false") {
        Literal::FALSE
    } else {
        match parse_number_exec(s) {
            Some(n) => Literal::NUMBER(n),
            None => Literal::STRING(String::from_str(s)),
        }
    }
}

/// The character of a decimal digit.
pub open spec fn digit_char(d: nat) -> char {
    ((48 + d) as u32) as char
}

/// The decimal spelling of an unsigned number.
pub open spec fn dec_u64(n: nat) -> Seq<char>
    decreases n,
{
    if n < 10 {
        seq![digit_char(n)]
    } else {
        dec_u64(n / 10).push(digit_char(n % 10))
    }
}

/// The decimal spelling of a number, with a leading minus when negative.
pub open spec fn dec_i64(n: int) -> Seq<char> {
    if n < 0 {
        seq!['-'] + dec_u64((-n) as nat)
    } else {
        dec_u64(n as nat)
    }
}

/// The spelling of one decimal digit.
fn digit_str(d: u64) -> (r: &'static str)
    requires
        d < 10,
    ensures
        r@ == seq![digit_char(d as nat)],
{
    if d == 0 {
        proof {
            reveal_strlit("0");
            assert("0"@ =~= seq![digit_char(0)]);
        }
        "0"
    } else if d == 1 {
        proof {
            reveal_strlit("1");
            assert("1"@ =~= seq![digit_char(1)]);
        }
        "1"
    } else if d == 2 {
        proof {
            reveal_strlit("2");
            assert("2"@ =~= seq![digit_char(2)]);
        }
        "2"
    } else if d == 3 {
        proof {
            reveal_strlit("3");
            assert("3"@ =~= seq![digit_char(3)]);
        }
        "3"
    } else if d == 4 {
        proof {
            reveal_strlit("4");
            assert("4"@ =~= seq![digit_char(4)]);
        }
        "4"
    } else if d == 5 {
        proof {
            reveal_strlit("5");
            assert("5"@ =~= seq![digit_char(5)]);
        }
        "5"
    } else if d == 6 {
        proof {
            reveal_strlit("6");
            assert("6"@ =~= seq![digit_char(6)]);
        }
        "6"
    } else if d == 7 {
        proof {
            reveal_strlit("7");
            assert("7"@ =~= seq![digit_char(7)]);
        }
        "7"
    } else if d == 8 {
        proof {
            reveal_strlit("8");
            assert("8"@ =~= seq![digit_char(8)]);
        }
        "8"
    } else {
        proof {
            reveal_strlit("9");
            assert("9"@ =~= seq![digit_char(9)]);
        }
        "9"
    }
}

/// Render an unsigned number in decimal.
fn u64_to_dec(n: u64) -> (r: String)
    ensures
        r@ == dec_u64(n as nat),
    decreases n,
{
    if n < 10 {
        String::from_str(digit_str(n))
    } else {
        let mut s = u64_to_dec(n / 10);
        s.append(digit_str(n % 10));
        proof {
            assert(dec_u64((n / 10) as nat).push(digit_char((n % 10) as nat)) =~= dec_u64(
                (n / 10) as nat,
            ) + seq![digit_char((n % 10) as nat)]);
        }
        s
    }
}

/// Render a number in decimal.
pub fn i64_to_dec(n: i64) -> (r: String)
    ensures
        r@ == dec_i64(n as int),
{
    if n >= 0 {
        u64_to_dec(n as u64)
    } else {
        let m: u64 = if n == i64::MIN {
            9223372036854775808u64
        } else {
            (-n) as u64
        };
        let mut s = String::from_str("-");
        let digits = u64_to_dec(m);
        s.append(digits.as_str());
        proof {
            reveal_strlit("-");
            assert("-"@ =~= seq!['-']);
        }
        s
    }
}

/// The printed form of a literal.
pub open spec fn str_of_literal(l: SpecLiteral) -> Seq<char> {
    match l {
        SpecLiteral::Num(n) => dec_i64(n as int),
        SpecLiteral::Ident(s) => s,
        SpecLiteral::Str(s) => s,
        SpecLiteral::True => "true"@,
        SpecLiteral::False => "false"@,
    }
}

/// The printed form of an expression.
pub open spec fn pretty_expr(e: SpecExpr) -> Seq<char>
    decreases e,
{
    match e {
        SpecExpr::Literal(l) => str_of_literal(l),
        SpecExpr::Unary(op, inner) => prefix_str(op) + pretty_expr(*inner),
        SpecExpr::Binary(lhs, op, rhs) => pretty_expr(*lhs) + " "@ + infix_str(op) + " "@
            + pretty_expr(*rhs),
        SpecExpr::Grouping(inner) => "( "@ + pretty_expr(*inner) + " )"@,
        SpecExpr::Block(ds) => {
            if ds.len() == 0 {
                "{}"@
            } else {
                "{ "@ + pretty_decls(ds) + " }"@
            }
        },
        SpecExpr::Call(name, args) => name + pretty_args(args),
    }
}

/// The printed form of a call's arguments: each atom after one space.
pub open spec fn pretty_args(args: Seq<SpecExpr>) -> Seq<char>
    decreases args,
{
    if args.len() == 0 {
        Seq::empty()
    } else {
        " "@ + pretty_expr(args[0]) + pretty_args(args.subrange(1, args.len() as int))
    }
}

/// The printed form of a statement.
pub open spec fn pretty_stmt(st: SpecStmt) -> Seq<char>
    decreases st,
{
    match st {
        SpecStmt::Expr(e) => pretty_expr(e),
    }
}

/// The printed form of a parameter list: each name after one space.
pub open spec fn pretty_params(ps: Seq<Seq<char>>) -> Seq<char>
    decreases ps.len(),
{
    if ps.len() == 0 {
        Seq::empty()
    } else {
        " "@ + ps[0] + pretty_params(ps.subrange(1, ps.len() as int))
    }
}

/// The printed form of a declaration.
pub open spec fn pretty_decl(d: SpecDecl) -> Seq<char>
    decreases d,
{
    match d {
        SpecDecl::Let(name, init) => "let "@ + name + " = "@ + pretty_expr(init),
        SpecDecl::Func(name, params, body) => "fn "@ + name + pretty_params(params) + " => "@
            + pretty_stmt(body),
        SpecDecl::Stmt(st) => pretty_stmt(st),
    }
}

/// The printed form of a declaration sequence: one per line.
pub open spec fn pretty_decls(ds: Seq<SpecDecl>) -> Seq<char>
    decreases ds,
{
    if ds.len() == 0 {
        Seq::empty()
    } else if ds.len() == 1 {
        pretty_decl(ds[0])
    } else {
        pretty_decl(ds[0]) + "\n"@ + pretty_decls(ds.subrange(1, ds.len() as int))
    }
}

impl Literal {
    /// The literal's source spelling (a string literal prints without its
    /// quotes, as its value does).
    pub fn stringify(&self) -> (r: String)
        ensures
            r@ == str_of_literal(self@),
    {
        match self {
            Literal::NUMBER(n) => i64_to_dec(*n),
            Literal::IDENT(s) => s.clone(),
            Literal::STRING(s) => s.clone(),
            Literal::TRUE => String::from_str("true"),
            Literal::FALSE => String::from_str("false"),
        }
    }
}

impl Expr {
    /// The expression's source spelling.
    pub fn stringify(&self) -> (r: String)
        ensures
            r@ == pretty_expr(self@),
        decreases self,
    {
        match self {
            Expr::Literal(l) => l.stringify(),
            Expr::Unary(op, inner) => {
                let mut s = op.stringify();
                let i = inner.stringify();
                s.append(i.as_str());
                s
            },
            Expr::Binary(lhs, op, rhs) => {
                let mut s = lhs.stringify();
                s.append(" ");
                let o = op.stringify();
                s.append(o.as_str());
                s.append(" ");
                let rr = rhs.stringify();
                s.append(rr.as_str());
                s
            },
            Expr::Grouping(inner) => {
                let mut s = String::from_str("( ");
                let i = inner.stringify();
                s.append(i.as_str());
                s.append(" )");
                s
            },
            Expr::Block(decls) => {
                proof {
                    lemma_view_decls_len(decls@);
                }
                if decls.len() == 0 {
                    String::from_str("{}")
                } else {
                    let mut s = String::from_str("{ ");
                    let body = stringify_decls(decls);
                    s.append(body.as_str());
                    s.append(" }");
                    s
                }
            },
            Expr::Call { callee, args } => {
                let mut s = callee.clone();
                let a = stringify_args(args);
                s.append(a.as_str());
                s
            },
        }
    }
}

/// Render a call's arguments.
fn stringify_args(args: &Vec<Expr>) -> (r: String)
    ensures
        r@ == pretty_args(view_exprs(args@)),
    decreases args@,
{
    let ghost av = view_exprs(args@);
    proof {
        lemma_view_exprs_len(args@);
    }
    let mut s = String::new();
    let n = args.len();
    let mut i: usize = 0;
    proof {
        assert(av.subrange(0, n as int) =~= av);
    }
    while i < n
        invariant
            0 <= i <= n,
            n == args@.len(),
            av == view_exprs(args@),
            av.len() == n,
            pretty_args(av) == s@ + pretty_args(av.subrange(i as int, n as int)),
        decreases n - i,
    {
        proof {
            assert(decreases_to!(args@ => args@[i as int]));
            lemma_view_exprs_index(args@, i as int);
            assert(av.subrange(i as int, n as int)[0] == av[i as int]);
            assert(av.subrange(i as int, n as int).subrange(1, (n - i) as int) =~= av.subrange(
                i + 1,
                n as int,
            ));
        }
        let a = args[i].stringify();
        s.append(" ");
        s.append(a.as_str());
        i = i + 1;
    }
    proof {
        assert(av.subrange(n as int, n as int) =~= Seq::<SpecExpr>::empty());
        assert(pretty_args(Seq::empty()) =~= Seq::<char>::empty());
        assert(s@ + Seq::<char>::empty() =~= s@);
    }
    s
}

impl Stmt {
    /// The statement's source spelling.
    pub fn stringify(&self) -> (r: String)
        ensures
            r@ == pretty_stmt(self@),
        decreases self,
    {
        match self {
            Stmt::Expr(e) => e.stringify(),
        }
    }
}

impl Decl {
    /// The declaration's source spelling.
    pub fn stringify(&self) -> (r: String)
        ensures
            r@ == pretty_decl(self@),
        decreases self,
    {
        match self {
            Decl::Let { name, init } => {
                let mut s = String::from_str("let ");
                s.append(name.as_str());
                s.append(" = ");
                let i = init.stringify();
                s.append(i.as_str());
                s
            },
            Decl::Func { name, params, body } => {
                let mut s = String::from_str("fn ");
                s.append(name.as_str());
                let ps = stringify_params(params);
                s.append(ps.as_str());
                s.append(" => ");
                let b = body.stringify();
                s.append(b.as_str());
                s
            },
            Decl::Stmt(st) => st.stringify(),
        }
    }
}

/// Render a parameter list.
fn stringify_params(ps: &Vec<String>) -> (r: String)
    ensures
        r@ == pretty_params(view_names(ps@)),
{
    let ghost pv = view_names(ps@);
    let mut s = String::new();
    let n = ps.len();
    let mut i: usize = 0;
    proof {
        assert(pv.subrange(0, n as int) =~= pv);
    }
    while i < n
        invariant
            0 <= i <= n,
            n == ps@.len(),
            pv == view_names(ps@),
            pv.len() == n,
            pretty_params(pv) == s@ + pretty_params(pv.subrange(i as int, n as int)),
        decreases n - i,
    {
        proof {
            assert(pv.subrange(i as int, n as int)[0] == pv[i as int]);
            assert(pv[i as int] == ps@[i as int]@);
            assert(pv.subrange(i as int, n as int).subrange(1, (n - i) as int) =~= pv.subrange(
                i + 1,
                n as int,
            ));
        }
        s.append(" ");
        s.append(ps[i].as_str());
        i = i + 1;
    }
    proof {
        assert(pv.subrange(n as int, n as int) =~= Seq::<Seq<char>>::empty());
        assert(pretty_params(Seq::empty()) =~= Seq::<char>::empty());
        assert(s@ + Seq::<char>::empty() =~= s@);
    }
    s
}

/// Render a declaration sequence, one per line.
fn stringify_decls(ds: &Vec<Decl>) -> (r: String)
    ensures
        r@ == pretty_decls(view_decls(ds@)),
    decreases ds@,
{
    let ghost dv = view_decls(ds@);
    proof {
        lemma_view_decls_len(ds@);
    }
    let n = ds.len();
    if n == 0 {
        proof {
            assert(pretty_decls(dv) =~= Seq::<char>::empty());
        }
        return String::new();
    }
    let mut s = String::new();
    let mut i: usize = 0;
    proof {
        assert(dv.subrange(0, n as int) =~= dv);
    }
    while i + 1 < n
        invariant
            0 <= i < n,
            n == ds@.len(),
            dv == view_decls(ds@),
            dv.len() == n,
            pretty_decls(dv) == s@ + pretty_decls(dv.subrange(i as int, n as int)),
        decreases n - i,
    {
        proof {
            assert(decreases_to!(ds@ => ds@[i as int]));
            lemma_view_decls_index(ds@, i as int);
            assert(dv.subrange(i as int, n as int)[0] == dv[i as int]);
            assert(dv.subrange(i as int, n as int).subrange(1, (n - i) as int) =~= dv.subrange(
                i + 1,
                n as int,
            ));
        }
        let d = ds[i].stringify();
        s.append(d.as_str());
        s.append("\n");
        i = i + 1;
    }
    proof {
        assert(decreases_to!(ds@ => ds@[i as int]));
        lemma_view_decls_index(ds@, i as int);
        assert(dv.subrange(i as int, n as int)[0] == dv[i as int]);
        assert(dv.subrange(i as int, n as int).len() == 1);
    }
    let d = ds[i].stringify();
    s.append(d.as_str());
    s
}

} // verus!
