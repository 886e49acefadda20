//! Diagnostics: the error taxonomy shared by the parser and the evaluator,
//! with a kind tag and a human-readable message.

use vstd::prelude::*;
use vstd::string::*;

verus! {

/// The kind of a diagnostic.
#[derive(Debug, Clone, Copy, PartialEq, Eq, Structural)]
pub enum DiagKind {
    LexError,
    ParseError,
    NameError,
    TypeError,
    ArityError,
    DivisionByZero,
    RuntimeError,
}

/// A diagnostic: its kind and a message for the user.
#[derive(Debug, PartialEq)]
pub struct Diagnostic {
    pub kind: DiagKind,
    pub msg: String,
}

/// Model of a diagnostic.
pub struct SpecDiag {
    pub kind: DiagKind,
    pub msg: Seq<char>,
}

impl View for Diagnostic {
    type V = SpecDiag;

    open spec fn view(&self) -> SpecDiag {
        SpecDiag { kind: self.kind, msg: self.msg@ }
    }
}

impl Clone for Diagnostic {
    fn clone(&self) -> (r: Self)
        ensures
            r == *self,
    {
        Diagnostic { kind: self.kind, msg: self.msg.clone() }
    }
}

impl Diagnostic {
    /// Build a diagnostic from a kind and a fixed message.
    pub fn new(kind: DiagKind, msg: &str) -> (r: Diagnostic)
        ensures
            r@ == (SpecDiag { kind, msg: msg@ }),
    {
        Diagnostic { kind, msg: String::from_str(msg) }
    }

    /// Build a diagnostic whose message is a subject followed by a fixed tail.
    pub fn with_subject(kind: DiagKind, subject: &str, tail: &str) -> (r: Diagnostic)
        ensures
            r@ == (SpecDiag { kind, msg: subject@ + tail@ }),
    {
        let mut m = String::from_str(subject);
        m.append(tail);
        Diagnostic { kind, msg: m }
    }

    /// The message, for rendering by a shell.
    pub fn message(&self) -> (r: &str)
        ensures
            r@ == self@.msg,
    {
        self.msg.as_str()
    }
}

} // verus!
