//! String scanners used by the small hand-rolled parsers: take a maximal
//! run of characters of one class off the front of a slice, or match a
//! fixed tag, reporting failure as an error value.

use vstd::prelude::*;
use vstd::string::*;

use crate::lexer::is_digit_char;

verus! {

/// The character classes the scanners take runs of.
#[derive(Debug, Clone, Copy, PartialEq, Eq, Structural)]
pub enum CharPred {
    Digit,
    AlphaNum,
    Space,
    SpaceOrNewline,
}

pub open spec fn is_alpha_char(c: char) -> bool {
    (97 <= c as u32 && c as u32 <= 122) || (65 <= c as u32 && c as u32 <= 90)
}

pub open spec fn is_op_char(c: char) -> bool {
    c == '+' || c == '-' || c == '*' || c == '/'
}

pub open spec fn pred_holds(p: CharPred, c: char) -> bool {
    match p {
        CharPred::Digit => is_digit_char(c),
        CharPred::AlphaNum => is_alpha_char(c) || is_digit_char(c),
        CharPred::Space => c == ' ',
        CharPred::SpaceOrNewline => c == ' ' || c == '\n',
    }
}

/// Length of the maximal run of class `p` starting at `i`.
pub open spec fn pred_run(s: Seq<char>, i: int, p: CharPred) -> nat
    decreases s.len() - i,
{
    if 0 <= i < s.len() && pred_holds(p, s[i]) {
        (1 + pred_run(s, i + 1, p)) as nat
    } else {
        0
    }
}

pub proof fn lemma_pred_run_bound(s: Seq<char>, i: int, p: CharPred)
    requires
        0 <= i <= s.len(),
    ensures
        i + pred_run(s, i, p) <= s.len(),
    decreases s.len() - i,
{
    if i < s.len() && pred_holds(p, s[i]) {
        lemma_pred_run_bound(s, i + 1, p);
    }
}

/// Every character inside the maximal run satisfies the class.
pub proof fn lemma_pred_run_chars(s: Seq<char>, i: int, p: CharPred)
    requires
        0 <= i <= s.len(),
    ensures
        forall|j: int|
            i <= j < i + pred_run(s, i, p) ==> pred_holds(p, #[trigger] s[j]),
    decreases s.len() - i,
{
    if i < s.len() && pred_holds(p, s[i]) {
        lemma_pred_run_chars(s, i + 1, p);
    }
}

fn pred_holds_exec(p: CharPred, c: char) -> (b: bool)
    ensures
        b == pred_holds(p, c),
{
    let u = c as u32;
    match p {
        CharPred::Digit => 48 <= u && u <= 57,
        CharPred::AlphaNum => (97 <= u && u <= 122) || (65 <= u && u <= 90) || (48 <= u && u
            <= 57),
        CharPred::Space => c == ' ',
        CharPred::SpaceOrNewline => c == ' ' || c == '\n',
    }
}

/// Split the slice at the end of the maximal run of class `p`: the run
/// first, the remainder second.
pub fn take_while<'a>(p: CharPred, s: &'a str) -> (r: (&'a str, &'a str))
    ensures
        r.0@ == s@.subrange(0, pred_run(s@, 0, p) as int),
        r.1@ == s@.subrange(pred_run(s@, 0, p) as int, s@.len() as int),
{
    let n = s.unicode_len();
    let mut j: usize = 0;
    proof {
        lemma_pred_run_bound(s@, 0, p);
    }
    while j < n && pred_holds_exec(p, s.get_char(j))
        invariant
            0 <= j <= n,
            n == s@.len(),
            pred_run(s@, 0, p) == j + pred_run(s@, j as int, p),
        decreases n - j,
    {
        proof {
            assert(pred_run(s@, j as int, p) == 1 + pred_run(s@, j + 1, p));
        }
        j = j + 1;
    }
    proof {
        assert(pred_run(s@, j as int, p) == 0);
    }
    (s.substring_char(0, j), s.substring_char(j, n))
}

/// Like `take_while`, but an empty run is reported with the given message.
fn take_while1<'a>(p: CharPred, s: &'a str, error_msg: &str) -> (r: Result<
    (&'a str, &'a str),
    String,
>)
    ensures
        match r {
            Ok(pair) => pred_run(s@, 0, p) > 0 && pair.0@ == s@.subrange(
                0,
                pred_run(s@, 0, p) as int,
            ) && pair.1@ == s@.subrange(pred_run(s@, 0, p) as int, s@.len() as int),
            Err(m) => pred_run(s@, 0, p) == 0 && m@ == error_msg@,
        },
{
    proof {
        lemma_pred_run_bound(s@, 0, p);
    }
    let (extracted, remainder) = take_while(p, s);
    if extracted.unicode_len() == 0 {
        Err(String::from_str(error_msg))
    } else {
        Ok((extracted, remainder))
    }
}

/// The leading run of digits and the remainder; no leading digit is an
/// error.
pub fn extract_digits<'a>(s: &'a str) -> (r: Result<(&'a str, &'a str), String>)
    ensures
        match r {
            Ok(pair) => pred_run(s@, 0, CharPred::Digit) > 0 && pair.0@ == s@.subrange(
                0,
                pred_run(s@, 0, CharPred::Digit) as int,
            ) && pair.1@ == s@.subrange(pred_run(s@, 0, CharPred::Digit) as int, s@.len() as int),
            Err(m) => pred_run(s@, 0, CharPred::Digit) == 0 && m@ == "expected digit"@,
        },
{
    take_while1(CharPred::Digit, s, "expected digit")
}

/// The leading run of spaces and newlines and the remainder.
pub fn extract_whitespace<'a>(s: &'a str) -> (r: (&'a str, &'a str))
    ensures
        r.0@ == s@.subrange(0, pred_run(s@, 0, CharPred::SpaceOrNewline) as int),
        r.1@ == s@.subrange(
            pred_run(s@, 0, CharPred::SpaceOrNewline) as int,
            s@.len() as int,
        ),
{
    take_while(CharPred::SpaceOrNewline, s)
}

/// Like `extract_whitespace`, but at least one character is demanded.
pub fn extract_whitespace1<'a>(s: &'a str) -> (r: Result<(&'a str, &'a str), String>)
    ensures
        match r {
            Ok(pair) => pred_run(s@, 0, CharPred::SpaceOrNewline) > 0 && pair.0@ == s@.subrange(
                0,
                pred_run(s@, 0, CharPred::SpaceOrNewline) as int,
            ) && pair.1@ == s@.subrange(
                pred_run(s@, 0, CharPred::SpaceOrNewline) as int,
                s@.len() as int,
            ),
            Err(m) => pred_run(s@, 0, CharPred::SpaceOrNewline) == 0 && m@ == "expected a space"@,
        },
{
    take_while1(CharPred::SpaceOrNewline, s, "expected a space")
}

/// An identifier off the front: a letter, then letters and digits. The
/// identifier comes first, the remainder second.
pub fn extract_ident<'a>(s: &'a str) -> (r: Result<(&'a str, &'a str), String>)
    ensures
        match r {
            Ok(pair) => s@.len() > 0 && is_alpha_char(s@[0]) && pair.0@ == s@.subrange(
                0,
                pred_run(s@, 0, CharPred::AlphaNum) as int,
            ) && pair.1@ == s@.subrange(
                pred_run(s@, 0, CharPred::AlphaNum) as int,
                s@.len() as int,
            ),
            Err(m) => (s@.len() == 0 || !is_alpha_char(s@[0])) && m@ == "expected identifier"@,
        },
{
    let n = s.unicode_len();
    let okay = if n == 0 {
        false
    } else {
        let c = s.get_char(0);
        let u = c as u32;
        (97 <= u && u <= 122) || (65 <= u && u <= 90)
    };
    if okay {
        Ok(take_while(CharPred::AlphaNum, s))
    } else {
        Err(String::from_str("expected identifier"))
    }
}

/// Strip a fixed tag off the front; anything else is reported.
pub fn tag<'a, 'b>(t: &'a str, s: &'b str) -> (r: Result<&'b str, String>)
    ensures
        match r {
            Ok(rest) => s@.len() >= t@.len() && s@.subrange(0, t@.len() as int) == t@ && rest@
                == s@.subrange(t@.len() as int, s@.len() as int),
            Err(m) => (s@.len() < t@.len() || s@.subrange(0, t@.len() as int) != t@) && m@
                == "expected "@ + t@,
        },
{
    let nt = t.unicode_len();
    let ns = s.unicode_len();
    if nt <= ns {
        let mut k: usize = 0;
        let mut ok = true;
        while k < nt
            invariant
                0 <= k <= nt,
                nt == t@.len(),
                nt <= ns == s@.len(),
                ok == (forall|m: int| 0 <= m < k ==> s@[m] == t@[m]),
            decreases nt - k,
        {
            if s.get_char(k) != t.get_char(k) {
                ok = false;
                proof {
                    assert(s@[k as int] != t@[k as int]);
                }
            }
            k = k + 1;
        }
        if ok {
            proof {
                assert(s@.subrange(0, nt as int) =~= t@);
            }
            return Ok(s.substring_char(nt, ns));
        }
        proof {
            assert(s@.subrange(0, nt as int) != t@) by {
                let m = choose|m: int| 0 <= m < nt && s@[m] != t@[m];
                assert(s@.subrange(0, nt as int)[m] != t@[m]);
            }
        }
    }
    let mut msg = String::from_str("expected ");
    msg.append(t);
    Err(msg)
}

/// The leading operator character and the remainder. The first character
/// must be one of the four operators.
pub fn extract_op<'a>(s: &'a str) -> (r: (&'a str, &'a str))
    requires
        s@.len() >= 1,
        is_op_char(s@[0]),
    ensures
        r.0@ == s@.subrange(0, 1),
        r.1@ == s@.subrange(1, s@.len() as int),
{
    let n = s.unicode_len();
    (s.substring_char(0, 1), s.substring_char(1, n))
}

} // verus!
