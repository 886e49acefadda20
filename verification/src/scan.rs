//! Infallible scanners: the earliest cut of the string utilities, used by
//! the fixed-form calculator. Where nothing matches they hand back an
//! empty piece, and the operator scanner demands its operator up front.

use vstd::prelude::*;
use vstd::string::*;

use crate::utils::{CharPred, is_alpha_char, is_op_char, lemma_pred_run_bound, pred_holds,
    pred_run};

verus! {

/// Split the slice at the end of the maximal run of class `p`.
pub fn take_while<'a>(p: CharPred, s: &'a str) -> (r: (&'a str, &'a str))
    ensures
        r.0@ == s@.subrange(0, pred_run(s@, 0, p) as int),
        r.1@ == s@.subrange(pred_run(s@, 0, p) as int, s@.len() as int),
{
    crate::utils::take_while(p, s)
}

/// The leading run of digits and the remainder; both may be empty.
pub fn extract_digits<'a>(s: &'a str) -> (r: (&'a str, &'a str))
    ensures
        r.0@ == s@.subrange(0, pred_run(s@, 0, CharPred::Digit) as int),
        r.1@ == s@.subrange(pred_run(s@, 0, CharPred::Digit) as int, s@.len() as int),
{
    take_while(CharPred::Digit, s)
}

/// The leading run of spaces and the remainder.
pub fn extract_whitespace<'a>(s: &'a str) -> (r: (&'a str, &'a str))
    ensures
        r.0@ == s@.subrange(0, pred_run(s@, 0, CharPred::Space) as int),
        r.1@ == s@.subrange(pred_run(s@, 0, CharPred::Space) as int, s@.len() as int),
{
    take_while(CharPred::Space, s)
}

/// An identifier off the front, or an empty piece when the string does not
/// begin with a letter.
pub fn extract_ident<'a>(s: &'a str) -> (r: (&'a str, &'a str))
    ensures
        (s@.len() > 0 && is_alpha_char(s@[0])) ==> (r.0@ == s@.subrange(
            0,
            pred_run(s@, 0, CharPred::AlphaNum) as int,
        ) && r.1@ == s@.subrange(pred_run(s@, 0, CharPred::AlphaNum) as int, s@.len() as int)),
        (s@.len() == 0 || !is_alpha_char(s@[0])) ==> (r.0@ == Seq::<char>::empty() && r.1@
            == s@),
{
    let n = s.unicode_len();
    let okay = if n == 0 {
        false
    } else {
        let c = s.get_char(0);
        let u = c as u32;
        (97 <= u && u <= 122) || (65 <= u && u <= 90)
    };
    if okay {
        take_while(CharPred::AlphaNum, s)
    } else {
        let empty = s.substring_char(0, 0);
        proof {
            assert(empty@ =~= Seq::<char>::empty());
        }
        (empty, s)
    }
}

/// Strip a fixed tag off the front. The string must begin with the tag.
pub fn tag<'a, 'b>(t: &'a str, s: &'b str) -> (r: &'b str)
    requires
        s@.len() >= t@.len(),
        s@.subrange(0, t@.len() as int) == t@,
    ensures
        r@ == s@.subrange(t@.len() as int, s@.len() as int),
{
    let nt = t.unicode_len();
    let ns = s.unicode_len();
    s.substring_char(nt, ns)
}

/// The leading operator character and the remainder. The first character
/// must be one of the four operators.
pub fn extract_op<'a>(s: &'a str) -> (r: (&'a str, &'a str))
    requires
        s@.len() >= 1,
        is_op_char(s@[0]),
    ensures
        r.0@ == s@.subrange(0, 1),
        r.1@ == s@.subrange(1, s@.len() as int),
{
    crate::utils::extract_op(s)
}

} // verus!
