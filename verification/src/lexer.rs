//! The lexer: turns a source string into a sequence of (kind, lexeme) tokens.
//!
//! The executable lexer is proved equal to a mathematical model, `lex_from`,
//! and the model is proved total: every token takes at least one character,
//! and the concatenation of all lexemes gives back the input exactly.

use vstd::prelude::*;
use vstd::string::*;

verus! {

/// The closed set of token kinds.
///
/// Inline whitespace is emitted as a token (so that lexing loses nothing);
/// the parser filters it out. Newlines are significant and stay visible.
#[derive(Debug, Clone, Copy, PartialEq, Eq, Structural)]
pub enum SyntaxKind {
    Whitespace,
    Newline,
    FnKw,
    LetKw,
    TrueKw,
    FalseKw,
    Ident,
    Number,
    StringKw,
    LessThanEq,
    GreaterThanEq,
    LessThan,
    GreaterThan,
    NotEqual,
    Equal,
    BitAnd,
    BitOr,
    Bang,
    Plus,
    Minus,
    Star,
    Slash,
    Equals,
    LBrace,
    RBrace,
    LParen,
    RParen,
    Error,
}

/// One token: its kind and the slice of the input it covers.
#[derive(Debug, Clone, Copy, PartialEq)]
pub struct Token<'a> {
    pub kind: SyntaxKind,
    pub text: &'a str,
}

impl<'a> View for Token<'a> {
    type V = (SyntaxKind, Seq<char>);

    open spec fn view(&self) -> (SyntaxKind, Seq<char>) {
        (self.kind, self.text@)
    }
}

/// The character classes the lexer takes maximal runs of.
#[derive(Debug, Clone, Copy, PartialEq, Eq, Structural)]
pub enum CharClass {
    InlineWs,
    Digit,
    IdentCont,
    NotQuote,
}

pub open spec fn is_inline_ws(c: char) -> bool {
    c == ' ' || c == '\t' || c == '\u{000C}'
}

pub open spec fn is_digit_char(c: char) -> bool {
    48 <= c as u32 && c as u32 <= 57
}

pub open spec fn is_ident_start(c: char) -> bool {
    (97 <= c as u32 && c as u32 <= 122) || (65 <= c as u32 && c as u32 <= 90) || c == '_'
}

pub open spec fn is_ident_cont(c: char) -> bool {
    is_ident_start(c) || is_digit_char(c)
}

pub open spec fn char_in_class(c: char, cls: CharClass) -> bool {
    match cls {
        CharClass::InlineWs => is_inline_ws(c),
        CharClass::Digit => is_digit_char(c),
        CharClass::IdentCont => is_ident_cont(c),
        CharClass::NotQuote => c != '\'',
    }
}

/// Length of the maximal run of characters of class `cls` starting at `i`.
pub open spec fn run_len(s: Seq<char>, i: int, cls: CharClass) -> nat
    decreases s.len() - i,
{
    if 0 <= i < s.len() && char_in_class(s[i], cls) {
        (1 + run_len(s, i + 1, cls)) as nat
    } else {
        0
    }
}

pub proof fn lemma_run_len_bound(s: Seq<char>, i: int, cls: CharClass)
    requires
        0 <= i <= s.len(),
    ensures
        i + run_len(s, i, cls) <= s.len(),
    decreases s.len() - i,
{
    if i < s.len() && char_in_class(s[i], cls) {
        lemma_run_len_bound(s, i + 1, cls);
    }
}

/// The keyword check: an identifier lexeme that spells a keyword gets the
/// keyword's kind.
pub open spec fn ident_kind(t: Seq<char>) -> SyntaxKind {
    if t == "fn"@ {
        SyntaxKind::FnKw
    } else if t == "let"@ {
        SyntaxKind::LetKw
    } else if t == "true"@ {
        SyntaxKind::TrueKw
    } else if t == "false"@ {
        SyntaxKind::FalseKw
    } else {
        SyntaxKind::Ident
    }
}

/// Kind and length of the token starting at position `i`.
///
/// Multi-character operators win over their single-character prefixes; the
/// keyword check wins over identifier; an unterminated string quote and any
/// unrecognised character give a one-character error token.
pub open spec fn scan_token(s: Seq<char>, i: int) -> (SyntaxKind, nat)
    recommends
        0 <= i < s.len(),
{
    let c = s[i];
    if is_inline_ws(c) {
        (SyntaxKind::Whitespace, (1 + run_len(s, i + 1, CharClass::InlineWs)) as nat)
    } else if c == '\n' {
        (SyntaxKind::Newline, 1nat)
    } else if is_ident_start(c) {
        let n = (1 + run_len(s, i + 1, CharClass::IdentCont)) as nat;
        (ident_kind(s.subrange(i, i + n)), n)
    } else if is_digit_char(c) {
        (SyntaxKind::Number, (1 + run_len(s, i + 1, CharClass::Digit)) as nat)
    } else if c == '\'' {
        let q = run_len(s, i + 1, CharClass::NotQuote);
        if i + 1 + q < s.len() {
            (SyntaxKind::StringKw, (q + 2) as nat)
        } else {
            (SyntaxKind::Error, 1nat)
        }
    } else if c == '<' {
        if i + 1 < s.len() && s[i + 1] == '=' {
            (SyntaxKind::LessThanEq, 2nat)
        } else {
            (SyntaxKind::LessThan, 1nat)
        }
    } else if c == '>' {
        if i + 1 < s.len() && s[i + 1] == '=' {
            (SyntaxKind::GreaterThanEq, 2nat)
        } else {
            (SyntaxKind::GreaterThan, 1nat)
        }
    } else if c == '!' {
        if i + 1 < s.len() && s[i + 1] == '=' {
            (SyntaxKind::NotEqual, 2nat)
        } else {
            (SyntaxKind::Bang, 1nat)
        }
    } else if c == '=' {
        if i + 1 < s.len() && s[i + 1] == '=' {
            (SyntaxKind::Equal, 2nat)
        } else {
            (SyntaxKind::Equals, 1nat)
        }
    } else if c == '&' {
        (SyntaxKind::BitAnd, 1nat)
    } else if c == '|' {
        (SyntaxKind::BitOr, 1nat)
    } else if c == '+' {
        (SyntaxKind::Plus, 1nat)
    } else if c == '-' {
        (SyntaxKind::Minus, 1nat)
    } else if c == '*' {
        (SyntaxKind::Star, 1nat)
    } else if c == '/' {
        (SyntaxKind::Slash, 1nat)
    } else if c == '{' {
        (SyntaxKind::LBrace, 1nat)
    } else if c == '}' {
        (SyntaxKind::RBrace, 1nat)
    } else if c == '(' {
        (SyntaxKind::LParen, 1nat)
    } else if c == ')' {
        (SyntaxKind::RParen, 1nat)
    } else {
        (SyntaxKind::Error, 1nat)
    }
}

pub proof fn lemma_scan_token_len(s: Seq<char>, i: int)
    requires
        0 <= i < s.len(),
    ensures
        1 <= scan_token(s, i).1,
        i + scan_token(s, i).1 <= s.len(),
{
    lemma_run_len_bound(s, i + 1, CharClass::InlineWs);
    lemma_run_len_bound(s, i + 1, CharClass::IdentCont);
    lemma_run_len_bound(s, i + 1, CharClass::Digit);
    lemma_run_len_bound(s, i + 1, CharClass::NotQuote);
}

/// The token sequence of `s` from position `i` on: kind and lexeme pairs.
pub open spec fn lex_from(s: Seq<char>, i: int) -> Seq<(SyntaxKind, Seq<char>)>
    decreases s.len() - i,
{
    if i < 0 || i >= s.len() {
        Seq::empty()
    } else {
        let (kind, n) = scan_token(s, i);
        let j = if i + n <= s.len() {
            i + n
        } else {
            s.len() as int
        };
        seq![(kind, s.subrange(i, j))] + lex_from(s, j)
    }
}

/// The whole token sequence of a source string.
pub open spec fn lex_spec(s: Seq<char>) -> Seq<(SyntaxKind, Seq<char>)> {
    lex_from(s, 0)
}

/// Concatenation of the lexemes of a token sequence.
pub open spec fn concat_lexemes(ts: Seq<(SyntaxKind, Seq<char>)>) -> Seq<char>
    decreases ts.len(),
{
    if ts.len() == 0 {
        Seq::empty()
    } else {
        ts[0].1 + concat_lexemes(ts.subrange(1, ts.len() as int))
    }
}

/// Lexing is total and loses nothing: every finite input yields a finite
/// token sequence whose concatenated lexemes equal the input.
pub proof fn lemma_lexer_total(s: Seq<char>)
    ensures
        concat_lexemes(lex_spec(s)) == s,
{
    lemma_lex_from_concat(s, 0);
    assert(s.subrange(0, s.len() as int) =~= s);
}

proof fn lemma_lex_from_concat(s: Seq<char>, i: int)
    requires
        0 <= i <= s.len(),
    ensures
        concat_lexemes(lex_from(s, i)) == s.subrange(i, s.len() as int),
    decreases s.len() - i,
{
    if i >= s.len() {
        assert(concat_lexemes(lex_from(s, i)) =~= s.subrange(i, s.len() as int));
    } else {
        let (kind, n) = scan_token(s, i);
        lemma_scan_token_len(s, i);
        let j = i + n;
        let ts = lex_from(s, i);
        assert(ts[0].1 == s.subrange(i, j));
        assert(ts.subrange(1, ts.len() as int) =~= lex_from(s, j));
        lemma_lex_from_concat(s, j);
        assert(s.subrange(i, j) + s.subrange(j, s.len() as int) =~= s.subrange(
            i,
            s.len() as int,
        ));
    }
}

/// Whether a character is in the class, decided in executable code.
fn char_in_class_exec(c: char, cls: CharClass) -> (b: bool)
    ensures
        b == char_in_class(c, cls),
{
    match cls {
        CharClass::InlineWs => c == ' ' || c == '\t' || c == '\u{000C}',
        CharClass::Digit => {
            let u = c as u32;
            48 <= u && u <= 57
        },
        CharClass::IdentCont => {
            let u = c as u32;
            (97 <= u && u <= 122) || (65 <= u && u <= 90) || c == '_' || (48 <= u && u <= 57)
        },
        CharClass::NotQuote => c != '\'',
    }
}

/// End of the maximal run of class `cls` starting at `start`.
fn scan_run(s: &str, start: usize, n: usize, cls: CharClass) -> (end: usize)
    requires
        n == s@.len(),
        start <= n,
    ensures
        end == start + run_len(s@, start as int, cls),
        start <= end <= n,
{
    let mut j = start;
    while j < n && char_in_class_exec(s.get_char(j), cls)
        invariant
            start <= j <= n,
            n == s@.len(),
            run_len(s@, start as int, cls) == (j - start) + run_len(s@, j as int, cls),
        decreases n - j,
    {
        assert(run_len(s@, j as int, cls) == 1 + run_len(s@, j + 1, cls));
        j = j + 1;
    }
    proof {
        assert(run_len(s@, j as int, cls) == 0);
    }
    j
}

/// Whether two string slices hold the same characters.
pub fn str_eq(a: &str, b: &str) -> (r: bool)
    ensures
        r == (a@ == b@),
{
    let na = a.unicode_len();
    let nb = b.unicode_len();
    if na != nb {
        return false;
    }
    let mut k: usize = 0;
    while k < na
        invariant
            0 <= k <= na,
            na == a@.len(),
            na == b@.len(),
            forall|m: int| 0 <= m < k ==> a@[m] == b@[m],
        decreases na - k,
    {
        if a.get_char(k) != b.get_char(k) {
            return false;
        }
        k = k + 1;
    }
    proof {
        assert(a@ =~= b@);
    }
    true
}

/// The keyword check on an identifier lexeme.
fn keyword_kind(t: &str) -> (kind: SyntaxKind)
    ensures
        kind == ident_kind(t@),
{
    if str_eq(t, "fn") {
        SyntaxKind::FnKw
    } else if str_eq(t, "let") {
        SyntaxKind::LetKw
    } else if str_eq(t, "true") {
        SyntaxKind::TrueKw
    } else if str_eq(t, "false") {
        SyntaxKind::FalseKw
    } else {
        SyntaxKind::Ident
    }
}

/// Kind and end position of the token starting at `i`.
fn scan_token_exec<'a>(s: &'a str, i: usize, n: usize) -> (res: (SyntaxKind, usize))
    requires
        n == s@.len(),
        i < n,
    ensures
        res.0 == scan_token(s@, i as int).0,
        res.1 == i + scan_token(s@, i as int).1,
        i < res.1 <= n,
{
    proof {
        lemma_scan_token_len(s@, i as int);
    }
    let c = s.get_char(i);
    let u = c as u32;
    if char_in_class_exec(c, CharClass::InlineWs) {
        let end = scan_run(s, i + 1, n, CharClass::InlineWs);
        (SyntaxKind::Whitespace, end)
    } else if c == '\n' {
        (SyntaxKind::Newline, i + 1)
    } else if (97 <= u && u <= 122) || (65 <= u && u <= 90) || c == '_' {
        let end = scan_run(s, i + 1, n, CharClass::IdentCont);
        let t = s.substring_char(i, end);
        (keyword_kind(t), end)
    } else if 48 <= u && u <= 57 {
        let end = scan_run(s, i + 1, n, CharClass::Digit);
        (SyntaxKind::Number, end)
    } else if c == '\'' {
        let end = scan_run(s, i + 1, n, CharClass::NotQuote);
        if end < n {
            (SyntaxKind::StringKw, end + 1)
        } else {
            (SyntaxKind::Error, i + 1)
        }
    } else if c == '<' {
        if i + 1 < n && s.get_char(i + 1) == '=' {
            (SyntaxKind::LessThanEq, i + 2)
        } else {
            (SyntaxKind::LessThan, i + 1)
        }
    } else if c == '>' {
        if i + 1 < n && s.get_char(i + 1) == '=' {
            (SyntaxKind::GreaterThanEq, i + 2)
        } else {
            (SyntaxKind::GreaterThan, i + 1)
        }
    } else if c == '!' {
        if i + 1 < n && s.get_char(i + 1) == '=' {
            (SyntaxKind::NotEqual, i + 2)
        } else {
            (SyntaxKind::Bang, i + 1)
        }
    } else if c == '=' {
        if i + 1 < n && s.get_char(i + 1) == '=' {
            (SyntaxKind::Equal, i + 2)
        } else {
            (SyntaxKind::Equals, i + 1)
        }
    } else if c == '&' {
        (SyntaxKind::BitAnd, i + 1)
    } else if c == '|' {
        (SyntaxKind::BitOr, i + 1)
    } else if c == '+' {
        (SyntaxKind::Plus, i + 1)
    } else if c == '-' {
        (SyntaxKind::Minus, i + 1)
    } else if c == '*' {
        (SyntaxKind::Star, i + 1)
    } else if c == '/' {
        (SyntaxKind::Slash, i + 1)
    } else if c == '{' {
        (SyntaxKind::LBrace, i + 1)
    } else if c == '}' {
        (SyntaxKind::RBrace, i + 1)
    } else if c == '(' {
        (SyntaxKind::LParen, i + 1)
    } else if c == ')' {
        (SyntaxKind::RParen, i + 1)
    } else {
        (SyntaxKind::Error, i + 1)
    }
}

/// The view of an executable token sequence.
pub open spec fn tokens_view(ts: Seq<Token>) -> Seq<(SyntaxKind, Seq<char>)> {
    ts.map_values(|t: Token| t@)
}

/// Lex a whole source string into tokens, whitespace included.
pub fn lex<'a>(input: &'a str) -> (toks: Vec<Token<'a>>)
    ensures
        tokens_view(toks@) == lex_spec(input@),
{
    let n = input.unicode_len();
    let mut toks: Vec<Token<'a>> = Vec::new();
    let mut i: usize = 0;
    while i < n
        invariant
            0 <= i <= n,
            n == input@.len(),
            lex_spec(input@) == tokens_view(toks@) + lex_from(input@, i as int),
        decreases n - i,
    {
        let (kind, end) = scan_token_exec(input, i, n);
        let text = input.substring_char(i, end);
        let tok = Token { kind, text };
        proof {
            let ghost old_toks = toks@;
            assert(lex_from(input@, i as int) == seq![(kind, input@.subrange(i as int, end as int))]
                + lex_from(input@, end as int));
        }
        toks.push(tok);
        proof {
            assert(tokens_view(toks@) =~= tokens_view(toks@.subrange(0, toks@.len() - 1)).push(
                tok@,
            ));
            assert(toks@.subrange(0, toks@.len() - 1) =~= toks@.drop_last());
            assert(tokens_view(toks@) + lex_from(input@, end as int) =~= tokens_view(
                toks@.drop_last(),
            ) + lex_from(input@, i as int));
        }
        i = end;
    }
    proof {
        assert(lex_from(input@, i as int) =~= Seq::<(SyntaxKind, Seq<char>)>::empty());
        assert(tokens_view(toks@) + lex_from(input@, i as int) =~= tokens_view(toks@));
    }
    toks
}

} // verus!
