//! Tests for the lexer: one token per input, with the keyword, operator
//! and literal rules of the language.

use klug::lexer::{SyntaxKind, lex};

fn check(input: &str, kind: SyntaxKind) {
    let toks = lex(input);
    assert_eq!(toks.len(), 1);
    assert_eq!(toks[0].kind, kind);
    assert_eq!(toks[0].text, input);
}

#[test]
fn lex_spaces() {
    let toks = lex("        ");
    assert!(toks.iter().all(|t| t.kind == SyntaxKind::Whitespace));
}

#[test]
fn lex_fn_keyword() {
    check("fn", SyntaxKind::FnKw);
}

#[test]
fn lex_let_keyword() {
    check("let", SyntaxKind::LetKw);
}

#[test]
fn lex_alphabetic_identifier() {
    check("abcd", SyntaxKind::Ident);
}

#[test]
fn lex_alphanumeric_identifier() {
    check("ab123cde456", SyntaxKind::Ident);
}

#[test]
fn lex_mixed_case_identifier() {
    check("ABCdef", SyntaxKind::Ident);
}

#[test]
fn lex_number() {
    check("123456", SyntaxKind::Number);
}

#[test]
fn lex_plus() {
    check("+", SyntaxKind::Plus);
}

#[test]
fn lex_minus() {
    check("-", SyntaxKind::Minus);
}

#[test]
fn lex_star() {
    check("*", SyntaxKind::Star);
}

#[test]
fn lex_slash() {
    check("/", SyntaxKind::Slash);
}

#[test]
fn lex_equals() {
    check("=", SyntaxKind::Equals);
}

#[test]
fn lex_left_brace() {
    check("{", SyntaxKind::LBrace);
}

#[test]
fn lex_right_brace() {
    check("}", SyntaxKind::RBrace);
}

#[test]
fn lex_single_char_identifier() {
    check("x", SyntaxKind::Ident);
}

#[test]
fn lex_left_parenthesis() {
    check("(", SyntaxKind::LParen);
}

#[test]
fn lex_right_parenthesis() {
    check(")", SyntaxKind::RParen);
}

#[test]
fn match_string1() {
    check("'hello world'", SyntaxKind::StringKw);
}

#[test]
fn match_string2() {
    check(
        "'     hello world 0980291212   \n\n\t\t\t\t        '",
        SyntaxKind::StringKw,
    );
}

#[test]
fn lex_double_equals() {
    check("==", SyntaxKind::Equal);
}

#[test]
fn lex_not_equal() {
    check("!=", SyntaxKind::NotEqual);
}

#[test]
fn lex_comparisons() {
    check("<=", SyntaxKind::LessThanEq);
    check(">=", SyntaxKind::GreaterThanEq);
    check("<", SyntaxKind::LessThan);
    check(">", SyntaxKind::GreaterThan);
}

#[test]
fn lex_unrecognised_byte() {
    check("#", SyntaxKind::Error);
}

#[test]
fn lex_unterminated_string() {
    let toks = lex("'abc");
    assert_eq!(toks[0].kind, SyntaxKind::Error);
    assert_eq!(toks[0].text, "'");
}

#[test]
fn lex_covers_whole_input() {
    let input = "let x = 10 + 'two words' # {}()\n!true";
    let toks = lex(input);
    let glued: String = toks.iter().map(|t| t.text).collect::<Vec<_>>().join("");
    assert_eq!(glued, input);
}
