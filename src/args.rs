use vstd::prelude::*;

use crate::array::Array;
use crate::value::{Diag, Error, Span, Value};

verus! {

/// One argument of a call: a value, optionally under a name.
#[derive(Debug, Hash)]
pub struct Arg {
    pub span: Span,
    pub name: Option<String>,
    pub value: Value,
}

/// The arguments of a call, consumed by position or by name.
#[derive(Debug, Hash)]
pub struct Args {
    pub span: Span,
    pub items: Vec<Arg>,
}

/// Whether an argument carries the given name.
pub open spec fn named_as(a: Arg, name: Seq<char>) -> bool {
    a.name matches Some(n) && n@ == name
}

/// Whether an argument can fill a parameter without default of the given
/// name: it is positional, or named so.
pub open spec fn fits(a: Arg, name: Seq<char>) -> bool {
    a.name is None || named_as(a, name)
}

/// The position of the first argument that fits the name, or -1.
pub open spec fn fit_index(s: Seq<Arg>, name: Seq<char>) -> int
    decreases s.len(),
{
    if s.len() == 0 {
        -1
    } else {
        let k = fit_index(s.drop_last(), name);
        if k >= 0 {
            k
        } else if fits(s.last(), name) {
            s.len() - 1
        } else {
            -1
        }
    }
}

/// The arguments without those named so.
pub open spec fn without_name(s: Seq<Arg>, name: Seq<char>) -> Seq<Arg>
    decreases s.len(),
{
    if s.len() == 0 {
        s
    } else if named_as(s.last(), name) {
        without_name(s.drop_last(), name)
    } else {
        without_name(s.drop_last(), name).push(s.last())
    }
}

/// The value of the last argument named so, if any.
pub open spec fn last_named(s: Seq<Arg>, name: Seq<char>) -> Option<Value>
    decreases s.len(),
{
    if s.len() == 0 {
        None
    } else if named_as(s.last(), name) {
        Some(s.last().value)
    } else {
        last_named(s.drop_last(), name)
    }
}

/// The values of the arguments, in order.
pub open spec fn values(s: Seq<Arg>) -> Seq<Value> {
    s.map_values(|a: Arg| a.value)
}

pub open spec fn missing(span: Span, d: Diag, name: Seq<char>) -> bool {
    &&& d.span == span
    &&& (d.error matches Error::MissingArgument { name: n } && n@ == name)
}

proof fn lemma_fit_index_prefix(s: Seq<Arg>, name: Seq<char>, n: int)
    requires
        0 <= n <= s.len(),
        fit_index(s.take(n), name) >= 0,
    ensures
        fit_index(s, name) == fit_index(s.take(n), name),
    decreases s.len() - n,
{
    if n < s.len() {
        assert(s.take(n + 1).drop_last() == s.take(n));
        lemma_fit_index_prefix(s, name, n + 1);
    } else {
        assert(s.take(n) == s);
    }
}

pub proof fn lemma_fit_index_bounds(s: Seq<Arg>, name: Seq<char>)
    ensures
        -1 <= fit_index(s, name) < s.len(),
        fit_index(s, name) >= 0 ==> fits(s[fit_index(s, name)], name),
    decreases s.len(),
{
    if s.len() > 0 {
        lemma_fit_index_bounds(s.drop_last(), name);
    }
}

fn is_named(a: &Arg, name: &str) -> (r: bool)
    ensures
        r == named_as(*a, name@),
{
    match &a.name {
        Some(n) => *n == name.to_owned(),
        None => false,
    }
}

impl Args {
    /// Create an argument list without arguments.
    pub fn new(span: Span) -> (r: Args)
        ensures
            r.span == span,
            r.items@ == Seq::<Arg>::empty(),
    {
        Args { span, items: Vec::new() }
    }

    /// Append a positional argument.
    pub fn push(&mut self, span: Span, value: Value)
        ensures
            final(self).span == old(self).span,
            final(self).items@ == old(self).items@.push(Arg { span, name: None, value }),
    {
        self.items.push(Arg { span, name: None, value });
    }

    /// Append a named argument.
    pub fn push_named(&mut self, span: Span, name: String, value: Value)
        ensures
            final(self).span == old(self).span,
            final(self).items@ == old(self).items@.push(Arg { span, name: Some(name), value }),
    {
        self.items.push(Arg { span, name: Some(name), value });
    }

    /// Consume the first argument that is positional or carries the name.
    pub fn expect(&mut self, name: &str) -> (r: Result<Value, Diag>)
        ensures
            final(self).span == old(self).span,
            ({
                let k = fit_index(old(self).items@, name@);
                &&& k >= 0 ==> r == Ok::<Value, Diag>(old(self).items@[k].value)
                    && final(self).items@ == old(self).items@.remove(k)
                &&& k < 0 ==> (r matches Err(d) && missing(old(self).span, d, name@))
                    && final(self).items@ == old(self).items@
            }),
    {
        let mut i: usize = 0;
        while i < self.items.len()
            invariant
                self.span == old(self).span,
                self.items@ == old(self).items@,
                i <= self.items@.len(),
                fit_index(self.items@.take(i as int), name@) == -1,
            decreases self.items@.len() - i,
        {
            let fit = match &self.items[i].name {
                None => true,
                Some(_) => is_named(&self.items[i], name),
            };
            proof {
                assert(self.items@.take(i + 1).drop_last() == self.items@.take(i as int));
            }
            if fit {
                proof {
                    lemma_fit_index_prefix(self.items@, name@, i + 1);
                }
                let arg = self.items.remove(i);
                return Ok(arg.value);
            }
            i = i + 1;
        }
        assert(self.items@.take(i as int) == self.items@);
        let n = name.to_owned();
        Err(Diag { span: self.span, error: Error::MissingArgument { name: n } })
    }

    /// Consume every argument that carries the name; the last one wins.
    pub fn named(&mut self, name: &str) -> (r: Option<Value>)
        ensures
            final(self).span == old(self).span,
            r == last_named(old(self).items@, name@),
            final(self).items@ == without_name(old(self).items@, name@),
    {
        let mut kept: Vec<Arg> = Vec::new();
        let mut found: Option<Value> = None;
        let mut rest: Vec<Arg> = Vec::new();
        std::mem::swap(&mut rest, &mut self.items);
        let ghost all = rest@;
        let mut i: usize = 0;
        while i < rest.len()
            invariant
                self.span == old(self).span,
                rest@ == all,
                i <= all.len(),
                kept@ == without_name(all.take(i as int), name@),
                found == last_named(all.take(i as int), name@),
            decreases all.len() - i,
        {
            proof {
                assert(all.take(i + 1).drop_last() == all.take(i as int));
            }
            let a = &rest[i];
            if is_named(a, name) {
                found = Some(a.value.copy());
            } else {
                let copy = Arg { span: a.span, name: copy_name(&a.name), value: a.value.copy() };
                kept.push(copy);
            }
            i = i + 1;
        }
        assert(all.take(i as int) == all);
        self.items = kept;
        found
    }

    /// Drain all remaining arguments into an array, in order.
    pub fn take(&mut self) -> (r: Array)
        ensures
            final(self).span == old(self).span,
            r@ == values(old(self).items@),
            final(self).items@ == Seq::<Arg>::empty(),
    {
        let mut out: Vec<Value> = Vec::new();
        let mut i: usize = 0;
        while i < self.items.len()
            invariant
                self.span == old(self).span,
                self.items@ == old(self).items@,
                i <= self.items@.len(),
                out@ == values(self.items@.take(i as int)),
            decreases self.items@.len() - i,
        {
            out.push(self.items[i].value.copy());
            assert(values(self.items@.take(i + 1)) == values(self.items@.take(i as int)).push(
                self.items@[i as int].value,
            ));
            i = i + 1;
        }
        assert(self.items@.take(i as int) == self.items@);
        self.items = Vec::new();
        Array::from_vec(out)
    }

    /// Fail on the first argument that was not consumed.
    pub fn finish(&self) -> (r: Result<(), Diag>)
        ensures
            self.items@.len() == 0 ==> r == Ok::<(), Diag>(()),
            self.items@.len() > 0 ==> r == Err::<(), Diag>(
                Diag { span: self.items@[0].span, error: Error::UnexpectedArgument },
            ),
    {
        if self.items.len() == 0 {
            Ok(())
        } else {
            Err(Diag { span: self.items[0].span, error: Error::UnexpectedArgument })
        }
    }

    /// The pre-bound arguments followed by these, in their order.
    pub fn prepend(&mut self, applied: &Args)
        ensures
            final(self).span == old(self).span,
            final(self).items@ == applied.items@ + old(self).items@,
    {
        let mut all: Vec<Arg> = Vec::new();
        let mut i: usize = 0;
        while i < applied.items.len()
            invariant
                self.span == old(self).span,
                self.items@ == old(self).items@,
                i <= applied.items@.len(),
                all@ == applied.items@.take(i as int),
            decreases applied.items@.len() - i,
        {
            all.push(applied.items[i].copy());
            assert(applied.items@.take(i + 1) == applied.items@.take(i as int).push(
                applied.items@[i as int],
            ));
            i = i + 1;
        }
        assert(applied.items@.take(i as int) == applied.items@);
        all.append(&mut self.items);
        self.items = all;
    }

    /// Another argument list with equal arguments.
    pub fn copy(&self) -> (r: Args)
        ensures
            r.span == self.span,
            r.items@ == self.items@,
    {
        let mut all: Vec<Arg> = Vec::new();
        let mut i: usize = 0;
        while i < self.items.len()
            invariant
                i <= self.items@.len(),
                all@ == self.items@.take(i as int),
            decreases self.items@.len() - i,
        {
            all.push(self.items[i].copy());
            assert(self.items@.take(i + 1) == self.items@.take(i as int).push(self.items@[i as int]));
            i = i + 1;
        }
        assert(self.items@.take(i as int) == self.items@);
        Args { span: self.span, items: all }
    }
}

fn copy_name(n: &Option<String>) -> (r: Option<String>)
    ensures
        r == *n,
{
    match n {
        Some(s) => Some(s.clone()),
        None => None,
    }
}

impl Arg {
    /// An equal argument.
    pub fn copy(&self) -> (r: Arg)
        ensures
            r == *self,
    {
        Arg { span: self.span, name: copy_name(&self.name), value: self.value.copy() }
    }
}

} // verus!
