use vstd::prelude::*;

use crate::value::{Span, Value};

verus! {

/// Variable bindings, later ones shadowing earlier ones of the same name.
#[derive(Debug, Hash)]
pub struct Scope {
    pub bindings: Vec<(String, Value)>,
}

/// The value bound last under a name.
pub open spec fn lookup(s: Seq<(String, Value)>, name: Seq<char>) -> Option<Value>
    decreases s.len(),
{
    if s.len() == 0 {
        None
    } else if s.last().0@ == name {
        Some(s.last().1)
    } else {
        lookup(s.drop_last(), name)
    }
}

impl Scope {
    /// A scope without bindings.
    pub fn new() -> (r: Scope)
        ensures
            r.bindings@ == Seq::<(String, Value)>::empty(),
    {
        Scope { bindings: Vec::new() }
    }

    /// Bind a value to a name.
    pub fn define(&mut self, name: String, value: Value)
        ensures
            final(self).bindings@ == old(self).bindings@.push((name, value)),
    {
        self.bindings.push((name, value));
    }

    /// The value bound to a name.
    pub fn get(&self, name: &str) -> (r: Option<Value>)
        ensures
            r == lookup(self.bindings@, name@),
    {
        let key = name.to_owned();
        let mut i: usize = self.bindings.len();
        assert(self.bindings@.take(i as int) == self.bindings@);
        while i > 0
            invariant
                key@ == name@,
                i <= self.bindings@.len(),
                lookup(self.bindings@, name@) == lookup(self.bindings@.take(i as int), name@),
            decreases i,
        {
            let ghost pre = self.bindings@.take(i as int);
            assert(pre.drop_last() == self.bindings@.take(i - 1));
            assert(pre.last() == self.bindings@[i - 1]);
            if self.bindings[i - 1].0 == key {
                return Some(self.bindings[i - 1].1.copy());
            }
            i = i - 1;
        }
        assert(self.bindings@.take(0) == Seq::<(String, Value)>::empty());
        None
    }

    /// A scope with the same bindings.
    pub fn copy(&self) -> (r: Scope)
        ensures
            r.bindings@ == self.bindings@,
    {
        let mut out: Vec<(String, Value)> = Vec::new();
        let mut i: usize = 0;
        while i < self.bindings.len()
            invariant
                i <= self.bindings@.len(),
                out@ == self.bindings@.take(i as int),
            decreases self.bindings@.len() - i,
        {
            let b = &self.bindings[i];
            out.push((b.0.clone(), b.1.copy()));
            assert(self.bindings@.take(i + 1) == self.bindings@.take(i as int).push(
                self.bindings@[i as int],
            ));
            i = i + 1;
        }
        assert(self.bindings@.take(i as int) == self.bindings@);
        Scope { bindings: out }
    }
}

/// A pending non-local control-flow signal.
#[derive(Debug, Hash)]
pub enum Flow {
    /// A return, with the value if one was given.
    Return(Span, Option<Value>),
    Break(Span),
    Continue(Span),
}

/// The state of an evaluation: scope, recursion route, collected
/// dependencies, a pending control-flow signal and the number of closure
/// calls that may still nest.
pub struct Machine {
    pub route: Vec<u64>,
    pub scope: Scope,
    pub deps: Vec<u64>,
    pub flow: Option<Flow>,
    pub depth: usize,
}

/// What an evaluation that has no enclosing one starts from.
pub struct Context {
    /// How deep closure calls may nest.
    pub depth: usize,
    /// Dependencies collected by detached calls.
    pub deps: Vec<u64>,
}

impl Machine {
    /// A machine on the given route and scope, with nothing collected.
    pub fn new(route: Vec<u64>, scope: Scope, depth: usize) -> (r: Machine)
        ensures
            r.route@ == route@,
            r.scope.bindings@ == scope.bindings@,
            r.deps@ == Seq::<u64>::empty(),
            r.flow is None,
            r.depth == depth,
    {
        Machine { route, scope, deps: Vec::new(), flow: None, depth }
    }
}

} // verus!
