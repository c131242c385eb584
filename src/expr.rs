use vstd::prelude::*;
use std::rc::Rc;

use crate::args::Args;
use crate::func::{Closure, Func, Repr};
use crate::scope::{lookup, Flow, Machine, Scope};
use crate::value::{Diag, Error, Kind, Span, Value};

verus! {

broadcast use vstd::std_specs::vec::group_vec_axioms;

/// The expressions that closure bodies are written in.
#[derive(Debug, Hash)]
pub enum Expr {
    /// A literal value.
    Lit(Value),
    /// A variable.
    Ident(Span, String),
    /// A binding of a variable in the current scope; evaluates to nothing.
    Let(String, Box<Expr>),
    /// A sequence of expressions; evaluates to the last one's value.
    Block(Vec<Expr>),
    /// A call of the callee's value with the arguments.
    Call(Span, Box<Expr>, Vec<ArgExpr>),
    /// A closure literal, capturing the current scope.
    Closure(ClosureExpr),
    /// A return, with or without a value.
    Return(Span, Option<Box<Expr>>),
    Break(Span),
    Continue(Span),
}

/// An argument of a call expression.
#[derive(Debug, Hash)]
pub struct ArgExpr {
    pub span: Span,
    pub name: Option<String>,
    pub value: Expr,
}

/// A closure literal.
#[derive(Debug, Hash)]
pub struct ClosureExpr {
    pub location: Option<u64>,
    pub name: Option<String>,
    pub params: Vec<(String, Option<Value>)>,
    pub sink: Option<String>,
    pub body: Rc<Expr>,
}

fn copy_text(s: &Option<String>) -> (r: Option<String>)
    ensures
        r == *s,
{
    match s {
        Some(t) => Some(t.clone()),
        None => None,
    }
}

fn copy_params(p: &Vec<(String, Option<Value>)>) -> (r: Vec<(String, Option<Value>)>)
    ensures
        r@ == p@,
{
    let mut out: Vec<(String, Option<Value>)> = Vec::new();
    let mut i: usize = 0;
    while i < p.len()
        invariant
            i <= p@.len(),
            out@ == p@.take(i as int),
        decreases p@.len() - i,
    {
        let d = match &p[i].1 {
            Some(v) => Some(v.copy()),
            None => None,
        };
        out.push((p[i].0.clone(), d));
        assert(p@.take(i + 1) == p@.take(i as int).push(p@[i as int]));
        i = i + 1;
    }
    assert(p@.take(i as int) == p@);
    out
}

/// The outcome of a body form that needs no call, evaluated from no pending
/// control flow: its result and the control flow it leaves pending. A
/// variable named as `hidden` is left open.
pub open spec fn eval_outcome(e: Expr, scope: Seq<(String, Value)>, hidden: Option<String>) -> Option<
    (Result<Value, Diag>, Option<Flow>),
> {
    match e {
        Expr::Lit(v) => Some((Ok(v), None)),
        Expr::Ident(sp, x) => if hidden is Some && hidden->Some_0@ == x@ {
            None
        } else {
            match lookup(scope, x@) {
                Some(v) => Some((Ok(v), None)),
                None => Some(
                    (Err(Diag { span: sp, error: Error::UnknownVariable { name: x } }), None),
                ),
            }
        },
        Expr::Break(sp) => Some((Ok(Value::Nil), Some(Flow::Break(sp)))),
        Expr::Continue(sp) => Some((Ok(Value::Nil), Some(Flow::Continue(sp)))),
        Expr::Return(sp, None) => Some((Ok(Value::Nil), Some(Flow::Return(sp, None)))),
        Expr::Return(sp, Some(b)) => match *b {
            Expr::Lit(v) => Some((Ok(Value::Nil), Some(Flow::Return(sp, Some(v))))),
            _ => None,
        },
        _ => None,
    }
}

impl Expr {
    /// Evaluate the expression.
    pub fn eval(&self, vm: &mut Machine) -> (r: Result<Value, Diag>)
        ensures
            final(vm).route@ == old(vm).route@,
            final(vm).depth == old(vm).depth,
            final(vm).deps@.len() >= old(vm).deps@.len(),
            final(vm).deps@.take(old(vm).deps@.len() as int) == old(vm).deps@,
            *self matches Expr::Lit(v) ==> r == Ok::<Value, Diag>(v) && final(vm).flow == old(
                vm,
            ).flow,
            *self matches Expr::Ident(sp, x) ==> final(vm).flow == old(vm).flow && match lookup(
                old(vm).scope.bindings@,
                x@,
            ) {
                Some(v) => r == Ok::<Value, Diag>(v),
                None => r matches Err(d) && d.span == sp && d.error is UnknownVariable,
            },
            *self matches Expr::Closure(c) ==> final(vm).flow == old(vm).flow && (r matches Ok(
                Value::Func(f),
            ) && f@ == Repr::Closure(
                Closure {
                    location: c.location,
                    name: c.name,
                    captured: f@->Closure_0.captured,
                    params: f@->Closure_0.params,
                    sink: c.sink,
                    body: c.body,
                },
            ) && f@->Closure_0.captured.bindings@ == old(vm).scope.bindings@
                && f@->Closure_0.params@ == c.params@),
            *self matches Expr::Break(sp) ==> (r == Ok::<Value, Diag>(Value::Nil)
                && final(vm).flow == Some(Flow::Break(sp))),
            *self matches Expr::Continue(sp) ==> (r == Ok::<Value, Diag>(Value::Nil)
                && final(vm).flow == Some(Flow::Continue(sp))),
            *self matches Expr::Return(sp, None) ==> (r == Ok::<Value, Diag>(Value::Nil)
                && final(vm).flow == Some(Flow::Return(sp, None))),
            (*self is Return && self->Return_1 is Some && *self->Return_1->Some_0 is Lit) ==> (r
                == Ok::<Value, Diag>(Value::Nil) && final(vm).flow == Some(
                Flow::Return(self->Return_0, Some(self->Return_1->Some_0->Lit_0)),
            )),
            (old(vm).flow is None && eval_outcome(*self, old(vm).scope.bindings@, None) is Some) ==> (r
                == eval_outcome(*self, old(vm).scope.bindings@, None)->Some_0.0 && final(vm).flow
                == eval_outcome(*self, old(vm).scope.bindings@, None)->Some_0.1),
        decreases old(vm).depth, 2int, self,
    {
        match self {
            Expr::Lit(v) => Ok(v.copy()),
            Expr::Ident(sp, x) => match vm.scope.get(x.as_str()) {
                Some(v) => Ok(v),
                None => Err(Diag { span: *sp, error: Error::UnknownVariable { name: x.clone() } }),
            },
            Expr::Let(x, e) => {
                let v = match e.eval(vm) {
                    Ok(v) => v,
                    Err(d) => {
                        return Err(d);
                    },
                };
                vm.scope.define(x.clone(), v);
                Ok(Value::Nil)
            },
            Expr::Block(es) => {
                let mut last = Value::Nil;
                let mut i: usize = 0;
                while i < es.len()
                    invariant
                        *self == Expr::Block(*es),
                        vm.route@ == old(vm).route@,
                        vm.depth == old(vm).depth,
                        vm.deps@.len() >= old(vm).deps@.len(),
                        vm.deps@.take(old(vm).deps@.len() as int) == old(vm).deps@,
                    decreases es@.len() - i,
                {
                    proof {
                        assert(decreases_to!(*self => self->Block_0));
                        assert(decreases_to!(*es => es[i as int]));
                    }
                    last = match es[i].eval(vm) {
                        Ok(v) => v,
                        Err(d) => {
                            return Err(d);
                        },
                    };
                    if vm.flow.is_some() {
                        return Ok(last);
                    }
                    i = i + 1;
                }
                Ok(last)
            },
            Expr::Call(sp, callee, items) => {
                let f = match callee.eval(vm) {
                    Ok(v) => v,
                    Err(d) => {
                        return Err(d);
                    },
                };
                let mut args = Args::new(*sp);
                let mut i: usize = 0;
                while i < items.len()
                    invariant
                        *self == Expr::Call(*sp, *callee, *items),
                        vm.route@ == old(vm).route@,
                        vm.depth == old(vm).depth,
                        vm.deps@.len() >= old(vm).deps@.len(),
                        vm.deps@.take(old(vm).deps@.len() as int) == old(vm).deps@,
                    decreases items@.len() - i,
                {
                    proof {
                        assert(decreases_to!(*self => self->Call_2));
                        assert(decreases_to!(*items => items[i as int]));
                        assert(decreases_to!(items[i as int] => items[i as int].value));
                    }
                    let v = match items[i].value.eval(vm) {
                        Ok(v) => v,
                        Err(d) => {
                            return Err(d);
                        },
                    };
                    match &items[i].name {
                        Some(n) => args.push_named(items[i].span, n.clone(), v),
                        None => args.push(items[i].span, v),
                    }
                    i = i + 1;
                }
                match f {
                    Value::Func(func) => func.call(vm, args),
                    other => {
                        let k = other.kind();
                        Err(Diag { span: *sp, error: Error::TypeMismatch { expected: Kind::Func, found: k } })
                    },
                }
            },
            Expr::Closure(c) => {
                let closure = Closure {
                    location: c.location,
                    name: copy_text(&c.name),
                    captured: vm.scope.copy(),
                    params: copy_params(&c.params),
                    sink: copy_text(&c.sink),
                    body: Rc::clone(&c.body),
                };
                Ok(Value::Func(Func::from_closure(closure)))
            },
            Expr::Return(sp, e) => {
                let v = match e {
                    Some(e) => match e.eval(vm) {
                        Ok(v) => Some(v),
                        Err(d) => {
                            return Err(d);
                        },
                    },
                    None => None,
                };
                vm.flow = Some(Flow::Return(*sp, v));
                Ok(Value::Nil)
            },
            Expr::Break(sp) => {
                vm.flow = Some(Flow::Break(*sp));
                Ok(Value::Nil)
            },
            Expr::Continue(sp) => {
                vm.flow = Some(Flow::Continue(*sp));
                Ok(Value::Nil)
            },
        }
    }
}

} // verus!
