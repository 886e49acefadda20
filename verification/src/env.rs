//! The environment: a stack of lexical scopes, innermost last. Each scope
//! maps names to bound values or function definitions; lookup walks from the
//! innermost scope outward and the latest binding of a name wins.

use vstd::prelude::*;
use vstd::string::*;

use crate::ast::{SpecStmt, Stmt, view_names, view_stmt};
use crate::diag::{DiagKind, Diagnostic, SpecDiag};
use crate::lexer::str_eq;

verus! {

/// A runtime value.
#[derive(Debug, PartialEq)]
pub enum Value {
    Number(i64),
    Str(String),
    Bool(bool),
    Unit,
}

/// Model of a runtime value.
pub enum SpecValue {
    Num(i64),
    Str(Seq<char>),
    Bool(bool),
    Unit,
}

impl View for Value {
    type V = SpecValue;

    open spec fn view(&self) -> SpecValue {
        match *self {
            Value::Number(n) => SpecValue::Num(n),
            Value::Str(s) => SpecValue::Str(s@),
            Value::Bool(b) => SpecValue::Bool(b),
            Value::Unit => SpecValue::Unit,
        }
    }
}

impl Clone for Value {
    fn clone(&self) -> (r: Self)
        ensures
            r == *self,
    {
        match self {
            Value::Number(n) => Value::Number(*n),
            Value::Str(s) => Value::Str(s.clone()),
            Value::Bool(b) => Value::Bool(*b),
            Value::Unit => Value::Unit,
        }
    }
}

/// What a name is bound to: a value, or a function definition.
#[derive(Debug, PartialEq)]
pub enum BoundInfo {
    Binding(Value),
    Func { params: Vec<String>, bdy: Stmt },
}

/// Model of a binding.
pub enum SpecBoundInfo {
    Binding(SpecValue),
    Func(Seq<Seq<char>>, SpecStmt),
}

impl View for BoundInfo {
    type V = SpecBoundInfo;

    open spec fn view(&self) -> SpecBoundInfo {
        match self {
            BoundInfo::Binding(v) => SpecBoundInfo::Binding(v@),
            BoundInfo::Func { params, bdy } => SpecBoundInfo::Func(
                view_names(params@),
                view_stmt(*bdy),
            ),
        }
    }
}

/// One lexical scope: name/binding pairs in insertion order.
pub type Frame = Vec<(String, BoundInfo)>;

/// Model of one scope.
pub type SpecFrame = Seq<(Seq<char>, SpecBoundInfo)>;

/// Model of the whole environment: scopes, innermost last.
pub type SpecEnv = Seq<SpecFrame>;

pub open spec fn view_frame(f: Seq<(String, BoundInfo)>) -> SpecFrame {
    f.map_values(|p: (String, BoundInfo)| (p.0@, p.1@))
}

/// The environment: a stack of scopes. The root scope lives for the whole
/// session; inner scopes are pushed for blocks and calls and popped after.
#[derive(Debug)]
pub struct Env {
    frames: Vec<Frame>,
}

impl View for Env {
    type V = SpecEnv;

    closed spec fn view(&self) -> SpecEnv {
        self.frames@.map_values(|f: Frame| view_frame(f@))
    }
}

/// The latest binding of `name` in one scope, if any.
pub open spec fn frame_lookup(f: SpecFrame, name: Seq<char>) -> Option<SpecBoundInfo>
    decreases f.len(),
{
    if f.len() == 0 {
        None
    } else if f.last().0 == name {
        Some(f.last().1)
    } else {
        frame_lookup(f.drop_last(), name)
    }
}

/// The binding of `name`, walking scopes from the innermost outward.
pub open spec fn env_lookup(env: SpecEnv, name: Seq<char>) -> Option<SpecBoundInfo>
    decreases env.len(),
{
    if env.len() == 0 {
        None
    } else {
        match frame_lookup(env.last(), name) {
            Some(b) => Some(b),
            None => env_lookup(env.drop_last(), name),
        }
    }
}

/// Insertion into the innermost scope.
pub open spec fn env_extend(env: SpecEnv, name: Seq<char>, info: SpecBoundInfo) -> SpecEnv
    recommends
        env.len() >= 1,
{
    env.update(env.len() - 1, env.last().push((name, info)))
}

/// What a value lookup returns: the value, or the exact diagnostic.
pub open spec fn spec_get_binding(env: SpecEnv, name: Seq<char>) -> Result<SpecValue, SpecDiag> {
    match env_lookup(env, name) {
        None => Err(SpecDiag { kind: DiagKind::NameError, msg: name + " not bound"@ }),
        Some(SpecBoundInfo::Binding(v)) => Ok(v),
        Some(SpecBoundInfo::Func(_, _)) => Err(
            SpecDiag { kind: DiagKind::NameError, msg: name + " is not a value"@ },
        ),
    }
}

/// What a function lookup returns: parameters and body, or the exact
/// diagnostic.
pub open spec fn spec_get_func(env: SpecEnv, name: Seq<char>) -> Result<
    (Seq<Seq<char>>, SpecStmt),
    SpecDiag,
> {
    match env_lookup(env, name) {
        None => Err(SpecDiag { kind: DiagKind::NameError, msg: name + " not bound"@ }),
        Some(SpecBoundInfo::Func(params, bdy)) => Ok((params, bdy)),
        Some(SpecBoundInfo::Binding(_)) => Err(
            SpecDiag { kind: DiagKind::NameError, msg: name + " is not a function"@ },
        ),
    }
}

pub open spec fn view_opt_bound(o: Option<BoundInfo>) -> Option<SpecBoundInfo> {
    match o {
        None => None,
        Some(b) => Some(b@),
    }
}

impl BoundInfo {
    /// A deep copy whose model equals this binding's model.
    fn duplicate(&self) -> (r: BoundInfo)
        ensures
            r@ == self@,
    {
        match self {
            BoundInfo::Binding(v) => BoundInfo::Binding(v.clone()),
            BoundInfo::Func { params, bdy } => BoundInfo::Func {
                params: params.clone(),
                bdy: bdy.clone(),
            },
        }
    }

    /// The value bound, if this is a value binding.
    pub fn into_binding(self) -> (r: Option<Value>)
        ensures
            match self@ {
                SpecBoundInfo::Binding(v) => r is Some && r.unwrap()@ == v,
                SpecBoundInfo::Func(_, _) => r is None,
            },
    {
        if let BoundInfo::Binding(val) = self {
            Some(val)
        } else {
            None
        }
    }

    /// The parameters and body bound, if this is a function binding.
    pub fn into_func(self) -> (r: Option<(Vec<String>, Stmt)>)
        ensures
            match self@ {
                SpecBoundInfo::Func(ps, b) => r is Some && view_names(r.unwrap().0@) == ps
                    && view_stmt(r.unwrap().1) == b,
                SpecBoundInfo::Binding(_) => r is None,
            },
    {
        if let BoundInfo::Func { params, bdy } = self {
            Some((params, bdy))
        } else {
            None
        }
    }
}

impl Env {
    /// Whether the environment is well formed: the root scope exists.
    pub open spec fn wf(&self) -> bool {
        self@.len() >= 1
    }

    /// A fresh environment holding one empty root scope.
    pub fn new() -> (r: Env)
        ensures
            r.wf(),
            r@ == seq![Seq::<(Seq<char>, SpecBoundInfo)>::empty()],
    {
        let mut frames: Vec<Frame> = Vec::new();
        frames.push(Vec::new());
        let e = Env { frames };
        proof {
            assert(view_frame(Seq::<(String, BoundInfo)>::empty()) =~= Seq::<(
                Seq<char>,
                SpecBoundInfo,
            )>::empty());
            assert(e@ =~~= seq![Seq::<(Seq<char>, SpecBoundInfo)>::empty()]);
        }
        e
    }

    /// Bind a name to a value in the innermost scope.
    pub fn extend_env(&mut self, name: String, val: Value)
        requires
            old(self).wf(),
        ensures
            final(self).wf(),
            final(self)@ == env_extend(old(self)@, name@, SpecBoundInfo::Binding(val@)),
    {
        let mut frame = self.frames.pop().unwrap();
        frame.push((name, BoundInfo::Binding(val)));
        self.frames.push(frame);
        proof {
            assert(self@ =~~= env_extend(old(self)@, name@, SpecBoundInfo::Binding(val@)));
        }
    }

    /// Bind a name to a function definition in the innermost scope.
    pub fn extend_env_func(&mut self, name: String, params: Vec<String>, bdy: Stmt)
        requires
            old(self).wf(),
        ensures
            final(self).wf(),
            final(self)@ == env_extend(
                old(self)@,
                name@,
                SpecBoundInfo::Func(view_names(params@), view_stmt(bdy)),
            ),
    {
        let ghost ps = view_names(params@);
        let ghost b = view_stmt(bdy);
        let mut frame = self.frames.pop().unwrap();
        frame.push((name, BoundInfo::Func { params, bdy }));
        self.frames.push(frame);
        proof {
            assert(self@ =~~= env_extend(old(self)@, name@, SpecBoundInfo::Func(ps, b)));
        }
    }

    /// Open a child scope; bindings made in it vanish when it is closed.
    pub fn push_scope(&mut self)
        requires
            old(self).wf(),
        ensures
            final(self).wf(),
            final(self)@ == old(self)@.push(Seq::<(Seq<char>, SpecBoundInfo)>::empty()),
    {
        self.frames.push(Vec::new());
        proof {
            assert(view_frame(Seq::<(String, BoundInfo)>::empty()) =~= Seq::<(
                Seq<char>,
                SpecBoundInfo,
            )>::empty());
            assert(self@ =~~= old(self)@.push(Seq::<(Seq<char>, SpecBoundInfo)>::empty()));
        }
    }

    /// Close the innermost scope. The root scope is never closed.
    pub fn pop_scope(&mut self)
        requires
            old(self).wf(),
            old(self)@.len() >= 2,
        ensures
            final(self).wf(),
            final(self)@ == old(self)@.drop_last(),
    {
        let _ = self.frames.pop();
        proof {
            assert(self@ =~~= old(self)@.drop_last());
        }
    }

    /// The number of open scopes.
    pub fn depth(&self) -> (r: usize)
        ensures
            r == self@.len(),
    {
        self.frames.len()
    }

    /// The binding of a name, walking scopes from the innermost outward;
    /// the first scope that binds the name decides.
    fn get_bound_info(&self, name: &str) -> (r: Option<BoundInfo>)
        ensures
            view_opt_bound(r) == env_lookup(self@, name@),
    {
        let nframes = self.frames.len();
        let mut fi = nframes;
        proof {
            assert(self@.subrange(0, nframes as int) =~= self@);
        }
        while fi > 0
            invariant
                0 <= fi <= nframes,
                nframes == self@.len(),
                env_lookup(self@, name@) == env_lookup(self@.subrange(0, fi as int), name@),
            decreases fi,
        {
            fi = fi - 1;
            let frame = &self.frames[fi];
            let ghost vf = view_frame(frame@);
            proof {
                assert(self@.subrange(0, fi + 1).last() == self@[fi as int]);
                assert(self@[fi as int] == vf);
            }
            let mut j = frame.len();
            proof {
                assert(vf.subrange(0, j as int) =~= vf);
            }
            while j > 0
                invariant
                    0 <= j <= frame@.len(),
                    fi < nframes,
                    nframes == self@.len(),
                    vf == view_frame(frame@),
                    vf == self@[fi as int],
                    env_lookup(self@, name@) == env_lookup(
                        self@.subrange(0, fi as int + 1),
                        name@,
                    ),
                    frame_lookup(vf, name@) == frame_lookup(vf.subrange(0, j as int), name@),
                decreases j,
            {
                j = j - 1;
                let entry = &frame[j];
                proof {
                    assert(vf.subrange(0, j + 1).last() == vf[j as int]);
                    assert(vf[j as int] == (frame@[j as int].0@, frame@[j as int].1@));
                    assert(vf.subrange(0, j + 1).drop_last() =~= vf.subrange(0, j as int));
                }
                if str_eq(entry.0.as_str(), name) {
                    proof {
                        assert(vf.subrange(0, j + 1).last().0 == name@);
                        assert(frame_lookup(vf.subrange(0, j + 1), name@) == Some(vf[j as int].1));
                        assert(frame_lookup(vf, name@) == Some(vf[j as int].1));
                        assert(self@.subrange(0, fi + 1).last() == vf);
                        assert(env_lookup(self@.subrange(0, fi + 1), name@) == Some(vf[j as int].1));
                        assert(env_lookup(self@, name@) == Some(vf[j as int].1));
                    }
                    return Some(entry.1.duplicate());
                }
            }
            proof {
                assert(frame_lookup(vf.subrange(0, 0), name@) is None);
                assert(self@.subrange(0, fi + 1).drop_last() =~= self@.subrange(0, fi as int));
            }
        }
        proof {
            assert(env_lookup(self@.subrange(0, 0), name@) is None);
        }
        None
    }

    /// Look a name up as a value. The first scope that binds the name
    /// decides; a function binding there is "not a value".
    pub fn get_binding(&self, name: &str) -> (r: Result<Value, Diagnostic>)
        ensures
            match r {
                Ok(v) => spec_get_binding(self@, name@) == Ok::<SpecValue, SpecDiag>(v@),
                Err(d) => spec_get_binding(self@, name@) == Err::<SpecValue, SpecDiag>(d@),
            },
    {
        match self.get_bound_info(name) {
            None => Err(Diagnostic::with_subject(DiagKind::NameError, name, " not bound")),
            Some(BoundInfo::Binding(v)) => Ok(v),
            Some(BoundInfo::Func { params: _, bdy: _ }) => Err(
                Diagnostic::with_subject(DiagKind::NameError, name, " is not a value"),
            ),
        }
    }

    /// Look a name up as a function. The first scope that binds the name
    /// decides; a value binding there is "not a function".
    pub fn get_func(&self, name: &str) -> (r: Result<(Vec<String>, Stmt), Diagnostic>)
        ensures
            match r {
                Ok(f) => spec_get_func(self@, name@) == Ok::<(Seq<Seq<char>>, SpecStmt), SpecDiag>(
                    (view_names(f.0@), view_stmt(f.1)),
                ),
                Err(d) => spec_get_func(self@, name@) == Err::<
                    (Seq<Seq<char>>, SpecStmt),
                    SpecDiag,
                >(d@),
            },
    {
        match self.get_bound_info(name) {
            None => Err(Diagnostic::with_subject(DiagKind::NameError, name, " not bound")),
            Some(BoundInfo::Func { params, bdy }) => Ok((params, bdy)),
            Some(BoundInfo::Binding(_)) => Err(
                Diagnostic::with_subject(DiagKind::NameError, name, " is not a function"),
            ),
        }
    }
}

impl Default for Env {
    /// The default environment is a fresh one.
    fn default() -> (r: Env)
        ensures
            r.wf(),
            r@ == seq![Seq::<(Seq<char>, SpecBoundInfo)>::empty()],
    {
        Env::new()
    }
}

/// Shadowing is scoped: opening a child scope, binding a name there, and
/// closing the scope leaves the whole environment — and so every lookup —
/// exactly as it was.
pub proof fn lemma_scope_shadowing(env: SpecEnv, name: Seq<char>, info: SpecBoundInfo)
    requires
        env.len() >= 1,
    ensures
        env_extend(env.push(Seq::empty()), name, info).drop_last() == env,
        forall|n: Seq<char>| env_lookup(
            #[trigger] env_extend(env.push(Seq::empty()), name, info).drop_last(),
            n,
        ) == env_lookup(env, n),
{
    assert(env_extend(env.push(Seq::empty()), name, info).drop_last() =~= env);
}

/// Lookup is idempotent: against an unchanged environment, two lookups of
/// the same name return the same answer, because the answer is a function
/// of the environment's model alone.
pub proof fn lemma_lookup_idempotent(env: SpecEnv, name: Seq<char>)
    ensures
        spec_get_binding(env, name) == spec_get_binding(env, name),
        env_lookup(env, name) == env_lookup(env, name),
{
}

} // verus!
