//! A compact two-operand calculator: a number, or `number op number`, with
//! optional whitespace, parsed by the string scanners and evaluated to a
//! runtime value. The number type is a 32-bit integer; evaluation widens
//! to the runtime value's 64-bit numbers, so only division by zero is
//! excluded.

use vstd::prelude::*;
use vstd::string::*;

use crate::ast::{digits_val, lemma_digits_val_prefix_le};
use crate::env::{SpecValue, Value};
use crate::interp::trunc_div;
use crate::lexer::is_digit_char;
use crate::utils::{CharPred, lemma_pred_run_bound, lemma_pred_run_chars, pred_run};

verus! {

/// The length of the leading digit run.
pub open spec fn digit_run(s: Seq<char>) -> nat {
    pred_run(s, 0, CharPred::Digit)
}

/// What remains after the first `n` characters.
pub open spec fn after(s: Seq<char>, n: nat) -> Seq<char>
    recommends
        n <= s.len(),
{
    s.subrange(n as int, s.len() as int)
}

/// The number at the front of the string, with the remainder.
pub open spec fn num_parse(s: Seq<char>) -> Option<(nat, Seq<char>)> {
    if digit_run(s) == 0 {
        None
    } else {
        Some((digits_val(s.subrange(0, digit_run(s) as int)), after(s, digit_run(s))))
    }
}

/// The operator at the front of the string, with the remainder.
pub open spec fn op_parse(s: Seq<char>) -> Option<(Op, Seq<char>)> {
    if s.len() >= 1 && s[0] == '+' {
        Some((Op::Plus, after(s, 1)))
    } else if s.len() >= 1 && s[0] == '-' {
        Some((Op::Sub, after(s, 1)))
    } else if s.len() >= 1 && s[0] == '*' {
        Some((Op::Mult, after(s, 1)))
    } else if s.len() >= 1 && s[0] == '/' {
        Some((Op::Div, after(s, 1)))
    } else {
        None
    }
}

/// Skip the leading whitespace.
pub open spec fn skip_ws(s: Seq<char>) -> Seq<char> {
    after(s, pred_run(s, 0, CharPred::SpaceOrNewline))
}

/// `number op number`, with whitespace around the operator.
pub open spec fn op_form_parse(s: Seq<char>) -> Option<(nat, Op, nat, Seq<char>)> {
    match num_parse(s) {
        None => None,
        Some((a, s1)) => match op_parse(skip_ws(s1)) {
            None => None,
            Some((op, s3)) => match num_parse(skip_ws(s3)) {
                None => None,
                Some((b, s5)) => Some((a, op, b, s5)),
            },
        },
    }
}

/// Whether every number this string makes the parser read fits the
/// calculator's 32-bit number type.
pub open spec fn numbers_fit(s: Seq<char>) -> bool {
    (match num_parse(s) {
        None => true,
        Some((a, s1)) => a <= i32::MAX && (match op_parse(skip_ws(s1)) {
            None => true,
            Some((_, s3)) => match num_parse(skip_ws(s3)) {
                None => true,
                Some((b, _)) => b <= i32::MAX,
            },
        }),
    })
}

/// A number literal of the calculator.
#[derive(Debug, PartialEq)]
pub struct Number(pub i32);

/// An operator of the calculator.
#[derive(Debug, Clone, Copy, PartialEq, Eq, Structural)]
pub enum Op {
    Plus,
    Mult,
    Sub,
    Div,
}

/// A calculator expression: a number, or one operation on two numbers.
#[derive(Debug, PartialEq)]
pub enum Expr {
    Number(Number),
    Operation { lhs: Number, rhs: Number, op: Op },
}

/// Read a digit string as a 32-bit number.
pub(crate) fn digits_to_i32(t: &str) -> (r: i32)
    requires
        t@.len() > 0,
        forall|i: int| 0 <= i < t@.len() ==> is_digit_char(#[trigger] t@[i]),
        digits_val(t@) <= i32::MAX,
    ensures
        r == digits_val(t@),
{
    let n = t.unicode_len();
    let mut acc: u64 = 0;
    let mut k: usize = 0;
    while k < n
        invariant
            0 <= k <= n,
            n == t@.len(),
            forall|i: int| 0 <= i < t@.len() ==> is_digit_char(#[trigger] t@[i]),
            digits_val(t@) <= i32::MAX,
            acc == digits_val(t@.subrange(0, k as int)),
            acc <= i32::MAX,
        decreases n - k,
    {
        let c = t.get_char(k);
        let u = c as u32;
        let d = (u - 48) as u64;
        proof {
            assert(t@.subrange(0, k + 1).drop_last() =~= t@.subrange(0, k as int));
            assert(t@.subrange(0, k + 1).last() == t@[k as int]);
            lemma_digits_val_prefix_le(t@, k + 1);
        }
        acc = acc * 10 + d;
        k = k + 1;
    }
    proof {
        assert(t@.subrange(0, n as int) =~= t@);
    }
    acc as i32
}

impl Number {
    /// Read the number at the front of the string; the remainder comes
    /// first in the pair. The number must fit the 32-bit type.
    pub fn new<'a>(s: &'a str) -> (r: Result<(&'a str, Number), String>)
        requires
            match num_parse(s@) {
                Some((a, _)) => a <= i32::MAX,
                None => true,
            },
        ensures
            match r {
                Ok(pair) => pair.1.0 >= 0 && num_parse(s@) == Some(
                    ((pair.1.0 as nat, pair.0@)),
                ),
                Err(m) => num_parse(s@) is None && m@ == "expected digit"@,
            },
    {
        proof {
            lemma_pred_run_bound(s@, 0, CharPred::Digit);
            lemma_pred_run_chars(s@, 0, CharPred::Digit);
        }
        match crate::utils::extract_digits(s) {
            Err(m) => Err(m),
            Ok((num, rest)) => Ok((rest, Number(digits_to_i32(num)))),
        }
    }
}

/// How a one-character tag match relates to the first character.
proof fn lemma_op_char_cases(s: Seq<char>)
    ensures
        s.len() >= 1 ==> (s.subrange(0, 1) =~= seq![s[0]]),
        "+"@ =~= seq!['+'],
        "-"@ =~= seq!['-'],
        "*"@ =~= seq!['*'],
        "/"@ =~= seq!['/'],
        s.len() >= 1 ==> ((s.subrange(0, 1) == "+"@) <==> s[0] == '+'),
        s.len() >= 1 ==> ((s.subrange(0, 1) == "-"@) <==> s[0] == '-'),
        s.len() >= 1 ==> ((s.subrange(0, 1) == "*"@) <==> s[0] == '*'),
        s.len() >= 1 ==> ((s.subrange(0, 1) == "/"@) <==> s[0] == '/'),
{
    reveal_strlit("+");
    reveal_strlit("-");
    reveal_strlit("*");
    reveal_strlit("/");
    assert("+"@ =~= seq!['+']);
    assert("-"@ =~= seq!['-']);
    assert("*"@ =~= seq!['*']);
    assert("/"@ =~= seq!['/']);
    if s.len() >= 1 {
        assert(s.subrange(0, 1) =~= seq![s[0]]);
        assert((seq![s[0]] == seq!['+']) <==> s[0] == '+') by {
            if s[0] == '+' {
                assert(seq![s[0]] =~= seq!['+']);
            }
            if seq![s[0]] == seq!['+'] {
                assert(seq![s[0]][0] == seq!['+'][0]);
            }
        }
        assert((seq![s[0]] == seq!['-']) <==> s[0] == '-') by {
            if s[0] == '-' {
                assert(seq![s[0]] =~= seq!['-']);
            }
            if seq![s[0]] == seq!['-'] {
                assert(seq![s[0]][0] == seq!['-'][0]);
            }
        }
        assert((seq![s[0]] == seq!['*']) <==> s[0] == '*') by {
            if s[0] == '*' {
                assert(seq![s[0]] =~= seq!['*']);
            }
            if seq![s[0]] == seq!['*'] {
                assert(seq![s[0]][0] == seq!['*'][0]);
            }
        }
        assert((seq![s[0]] == seq!['/']) <==> s[0] == '/') by {
            if s[0] == '/' {
                assert(seq![s[0]] =~= seq!['/']);
            }
            if seq![s[0]] == seq!['/'] {
                assert(seq![s[0]][0] == seq!['/'][0]);
            }
        }
    }
}

impl Op {
    /// Read the operator at the front of the string; the remainder comes
    /// first in the pair.
    pub fn new<'a>(s: &'a str) -> (r: Result<(&'a str, Op), String>)
        ensures
            match r {
                Ok(pair) => op_parse(s@) == Some((pair.1, pair.0@)),
                Err(m) => op_parse(s@) is None && m@ == "expected /"@,
            },
    {
        match crate::utils::tag("+", s) {
            Ok(rest) => {
                proof {
                    lemma_op_char_cases(s@);
                }
                return Ok((rest, Op::Plus));
            },
            Err(_) => {},
        }
        match crate::utils::tag("-", s) {
            Ok(rest) => {
                proof {
                    lemma_op_char_cases(s@);
                }
                return Ok((rest, Op::Sub));
            },
            Err(_) => {},
        }
        match crate::utils::tag("*", s) {
            Ok(rest) => {
                proof {
                    lemma_op_char_cases(s@);
                }
                return Ok((rest, Op::Mult));
            },
            Err(_) => {},
        }
        match crate::utils::tag("/", s) {
            Ok(rest) => {
                proof {
                    lemma_op_char_cases(s@);
                }
                Ok((rest, Op::Div))
            },
            Err(m) => {
                proof {
                    lemma_op_char_cases(s@);
                    reveal_strlit("expected ");
                    reveal_strlit("/");
                    reveal_strlit("expected /");
                    assert("expected "@ + "/"@ =~= "expected /"@);
                }
                Err(m)
            },
        }
    }
}

impl Expr {
    /// Read an expression: an operation if the string has one, else a
    /// plain number.
    pub fn new<'a>(s: &'a str) -> (r: Result<(&'a str, Expr), String>)
        requires
            numbers_fit(s@),
        ensures
            match r {
                Ok(pair) => (match op_form_parse(s@) {
                    Some((a, op, b, s5)) => pair.1 == (Expr::Operation {
                        lhs: Number(a as i32),
                        rhs: Number(b as i32),
                        op,
                    }) && pair.0@ == s5,
                    None => num_parse(s@) is Some && pair.1 == Expr::Number(
                        Number(num_parse(s@)->Some_0.0 as i32),
                    ) && pair.0@ == num_parse(s@)->Some_0.1,
                }),
                Err(m) => num_parse(s@) is None && m@ == "expected digit"@,
            },
    {
        match Expr::new_op(s) {
            Ok(pair) => Ok(pair),
            Err(_) => Expr::new_num(s),
        }
    }

    /// Read `number op number`.
    pub fn new_op<'a>(s: &'a str) -> (r: Result<(&'a str, Expr), String>)
        requires
            numbers_fit(s@),
        ensures
            match r {
                Ok(pair) => (match op_form_parse(s@) {
                    Some((a, op, b, s5)) => pair.1 == (Expr::Operation {
                        lhs: Number(a as i32),
                        rhs: Number(b as i32),
                        op,
                    }) && pair.0@ == s5,
                    None => false,
                }),
                Err(_) => op_form_parse(s@) is None,
            },
    {
        let (s, lhs) = match Number::new(s) {
            Err(m) => {
                return Err(m);
            },
            Ok(p) => p,
        };
        let (_, s) = crate::utils::extract_whitespace(s);
        let (s, op) = match Op::new(s) {
            Err(m) => {
                return Err(m);
            },
            Ok(p) => p,
        };
        let (_, s) = crate::utils::extract_whitespace(s);
        let (s, rhs) = match Number::new(s) {
            Err(m) => {
                return Err(m);
            },
            Ok(p) => p,
        };
        Ok((s, Expr::Operation { lhs, rhs, op }))
    }

    /// Read a plain number.
    pub fn new_num<'a>(s: &'a str) -> (r: Result<(&'a str, Expr), String>)
        requires
            match num_parse(s@) {
                Some((a, _)) => a <= i32::MAX,
                None => true,
            },
        ensures
            match r {
                Ok(pair) => num_parse(s@) is Some && pair.1 == Expr::Number(
                    Number(num_parse(s@)->Some_0.0 as i32),
                ) && pair.0@ == num_parse(s@)->Some_0.1,
                Err(m) => num_parse(s@) is None && m@ == "expected digit"@,
            },
    {
        match Number::new(s) {
            Err(m) => Err(m),
            Ok((rest, num)) => Ok((rest, Expr::Number(num))),
        }
    }

    /// The value the expression denotes, in the runtime's 64-bit numbers.
    /// Division by zero is excluded up front.
    pub fn eval(&self) -> (r: Value)
        requires
            match *self {
                Expr::Operation { rhs, op, .. } => op == Op::Div ==> rhs.0 != 0,
                Expr::Number(_) => true,
            },
        ensures
            r@ == spec_eval_calc(*self),
    {
        match self {
            Expr::Number(Number(n)) => Value::Number(*n as i64),
            Expr::Operation { lhs, rhs, op } => {
                let a = lhs.0 as i64;
                let b = rhs.0 as i64;
                proof {
                    assert(a * b <= 4611686018427387904 && a * b >= -4611686018427387904) by (nonlinear_arith)
                        requires
                            -2147483648 <= a <= 2147483647,
                            -2147483648 <= b <= 2147483647,
                    ;
                }
                let res: i64 = match op {
                    Op::Plus => a + b,
                    Op::Sub => a - b,
                    Op::Mult => a * b,
                    Op::Div => match a.checked_div(b) {
                        Some(v) => v,
                        None => 0,  // unreachable: b != 0 and a is far from the 64-bit bound
                    },
                };
                Value::Number(res)
            },
        }
    }
}

/// The exact value of a calculator expression.
pub open spec fn spec_eval_calc(e: Expr) -> SpecValue {
    match e {
        Expr::Number(n) => SpecValue::Num(n.0 as i64),
        Expr::Operation { lhs, rhs, op } => SpecValue::Num(
            (match op {
                Op::Plus => lhs.0 + rhs.0,
                Op::Sub => lhs.0 - rhs.0,
                Op::Mult => lhs.0 * rhs.0,
                Op::Div => trunc_div(lhs.0 as int, rhs.0 as int),
            }) as i64,
        ),
    }
}

} // verus!
