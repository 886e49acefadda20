//! A binding usage: a bare name standing for the value it is bound to.

use vstd::prelude::*;
use vstd::string::*;

use crate::utils::{CharPred, is_alpha_char, pred_run};

verus! {

/// A reference to a bound name.
#[derive(Debug, PartialEq)]
pub struct BindingUsage {
    pub name: String,
}

impl BindingUsage {
    /// Read a name off the front of the string; the remainder comes first
    /// in the pair.
    pub fn new<'a>(s: &'a str) -> (r: Result<(&'a str, BindingUsage), String>)
        ensures
            match r {
                Ok(pair) => s@.len() > 0 && is_alpha_char(s@[0]) && pair.1.name@ == s@.subrange(
                    0,
                    pred_run(s@, 0, CharPred::AlphaNum) as int,
                ) && pair.0@ == s@.subrange(
                    pred_run(s@, 0, CharPred::AlphaNum) as int,
                    s@.len() as int,
                ),
                Err(m) => (s@.len() == 0 || !is_alpha_char(s@[0])) && m@
                    == "expected identifier"@,
            },
    {
        match crate::utils::extract_ident(s) {
            Err(m) => Err(m),
            Ok((name, rest)) => Ok((rest, BindingUsage { name: String::from_str(name) })),
        }
    }
}

} // verus!
