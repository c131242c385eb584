use vstd::prelude::*;
use std::rc::Rc;

use crate::args::{
    fit_index, last_named, lemma_fit_index_bounds, missing, named_as, values, without_name, Arg,
    Args,
};
use crate::expr::{eval_outcome, Expr};
use crate::scope::{lookup, Context, Flow, Machine, Scope};
use crate::value::{int_of, kind_of, Diag, Error, Kind, Span, Value};

verus! {

/// A callable value: a handle to an immutable, shared representation.
/// Two handles are the same function only if they share the allocation.
#[derive(Debug, Clone, Hash)]
pub struct Func {
    repr: Rc<Repr>,
}

/// The kinds of callables.
#[derive(Debug, Hash)]
pub enum Repr {
    /// A built-in function.
    Native(Native),
    /// A user-defined closure.
    Closure(Closure),
    /// A function with pre-applied arguments.
    With(Func, Args),
}

/// The operation a built-in function performs on its two positional
/// arguments `x` and `y`, both integers.
#[derive(Clone, Copy, Debug, PartialEq, Eq, Hash, Structural)]
pub enum Op {
    /// Whether `x` is greater than `y`.
    Gt,
    /// Whether `x` is less than `y`.
    Lt,
    /// The sum of `x` and `y`.
    Add,
}

/// A built-in function.
#[derive(Debug, Hash)]
pub struct Native {
    pub name: String,
    pub op: Op,
    /// The style properties its set rule reads, if it has one.
    pub rule: Option<Vec<String>>,
    /// The identity tag that show rules target, if it is customizable.
    pub node: Option<u64>,
}

/// Properties produced by a set rule.
#[derive(Debug, Hash)]
pub struct StyleMap {
    pub entries: Vec<(String, Value)>,
}

/// A user-defined closure.
#[derive(Debug, Hash)]
pub struct Closure {
    /// The source file where the closure was defined.
    pub location: Option<u64>,
    /// The name of the closure.
    pub name: Option<String>,
    /// Captured values from outer scopes.
    pub captured: Scope,
    /// The parameter names and default values. Parameters with a default
    /// value are named parameters.
    pub params: Vec<(String, Option<Value>)>,
    /// The name of an argument sink where remaining arguments are placed.
    pub sink: Option<String>,
    /// The expression the closure evaluates to.
    pub body: Rc<Expr>,
}

pub open spec fn x_name() -> Seq<char> {
    seq!['x']
}

pub open spec fn y_name() -> Seq<char> {
    seq!['y']
}

/// What an operation yields on two integers.
pub open spec fn op_result(op: Op, x: int, y: int) -> Option<Value> {
    match op {
        Op::Gt => Some(Value::Bool(x > y)),
        Op::Lt => Some(Value::Bool(x < y)),
        Op::Add => if i64::MIN <= x + y <= i64::MAX {
            Some(Value::Int((x + y) as i64))
        } else {
            None
        },
    }
}

/// Binding the first `n` parameters, starting from `scope` and consuming
/// `args`: the bindings and the arguments left, or the index of the first
/// parameter without default that no argument fits.
pub open spec fn bind_upto(
    params: Seq<(String, Option<Value>)>,
    scope: Seq<(String, Value)>,
    args: Seq<Arg>,
    n: int,
) -> Result<(Seq<(String, Value)>, Seq<Arg>), int>
    decreases n,
{
    if n <= 0 {
        Ok((scope, args))
    } else {
        match bind_upto(params, scope, args, n - 1) {
            Err(k) => Err(k),
            Ok((sc, rest)) => {
                let p = params[n - 1];
                match p.1 {
                    None => {
                        let k = fit_index(rest, p.0@);
                        if k < 0 {
                            Err(n - 1)
                        } else {
                            Ok((sc.push((p.0, rest[k].value)), rest.remove(k)))
                        }
                    },
                    Some(d) => Ok(
                        (
                            sc.push(
                                (
                                    p.0,
                                    match last_named(rest, p.0@) {
                                        Some(v) => v,
                                        None => d,
                                    },
                                ),
                            ),
                            without_name(rest, p.0@),
                        ),
                    ),
                }
            },
        }
    }
}

/// Binding all parameters of a closure to the arguments.
pub open spec fn bind_all(c: Closure, args: Seq<Arg>) -> Result<(Seq<(String, Value)>, Seq<Arg>), int> {
    bind_upto(c.params@, c.captured.bindings@, args, c.params@.len() as int)
}

/// The route inside a closure: a top-level call starts afresh from where the
/// closure was defined, a nested one keeps the caller's.
pub open spec fn route_spec(route: Seq<u64>, location: Option<u64>) -> Seq<u64> {
    if route.len() == 0 {
        match location {
            Some(l) => seq![l],
            None => Seq::empty(),
        }
    } else {
        route
    }
}

/// The number of parameters without default.
pub open spec fn required(params: Seq<(String, Option<Value>)>) -> nat {
    params.filter(|p: (String, Option<Value>)| p.1 is None).len()
}

/// The number of positional arguments.
pub open spec fn positional(args: Seq<Arg>) -> nat {
    args.filter(|a: Arg| a.name is None).len()
}

/// Relies on Rc::ptr_eq: it is true only where both handles point to the
/// same allocation, which then holds one value.
#[verifier::external_body]
fn same_allocation(a: &Rc<Repr>, b: &Rc<Repr>) -> (r: bool)
    ensures
        r ==> *a == *b,
{
    Rc::ptr_eq(a, b)
}

impl Func {
    /// The representation behind the handle.
    pub closed spec fn view(&self) -> Repr {
        *self.repr
    }

    /// The name of a function, looking through pre-applied arguments.
    pub open spec fn name_of(self) -> Option<Seq<char>>
        decreases self,
    {
        match self@ {
            Repr::Native(n) => Some(n.name@),
            Repr::Closure(c) => match c.name {
                Some(n) => Some(n@),
                None => None,
            },
            Repr::With(f, _) => f.name_of(),
        }
    }

    /// The number of positional arguments a function takes, if known.
    pub open spec fn argc_of(self) -> Option<nat>
        decreases self,
    {
        match self@ {
            Repr::Native(_) => None,
            Repr::Closure(c) => Some(required(c.params@)),
            Repr::With(f, a) => match f.argc_of() {
                Some(n) => Some(
                    if n >= positional(a.items@) {
                        (n - positional(a.items@)) as nat
                    } else {
                        0
                    },
                ),
                None => None,
            },
        }
    }

    /// Create a new function from a built-in operation.
    pub fn from_fn(name: &str, op: Op) -> (r: Func)
        ensures
            r@ is Native,
            r@->Native_0.name@ == name@,
            r@->Native_0.op == op,
            r@->Native_0.rule is None,
            r@->Native_0.node is None,
    {
        Func { repr: Rc::new(Repr::Native(Native { name: name.to_owned(), op, rule: None, node: None })) }
    }

    /// Create a new function for a stylable node: a built-in operation with
    /// a set rule over the given properties and, if given, an identity tag.
    pub fn from_node(name: &str, op: Op, properties: Vec<String>, node: Option<u64>) -> (r: Func)
        ensures
            r@ is Native,
            r@->Native_0.name@ == name@,
            r@->Native_0.op == op,
            r@->Native_0.rule matches Some(p) && p@ == properties@,
            r@->Native_0.node == node,
    {
        Func {
            repr: Rc::new(
                Repr::Native(Native { name: name.to_owned(), op, rule: Some(properties), node }),
            ),
        }
    }

    /// Create a new function from a closure.
    pub fn from_closure(closure: Closure) -> (r: Func)
        ensures
            r@ == Repr::Closure(closure),
    {
        Func { repr: Rc::new(Repr::Closure(closure)) }
    }

    /// Apply the given arguments to the function.
    pub fn with(self, args: Args) -> (r: Func)
        ensures
            r@ == Repr::With(self, args),
    {
        Func { repr: Rc::new(Repr::With(self, args)) }
    }

    /// Another handle to the same function.
    pub fn share(&self) -> (r: Func)
        ensures
            r == *self,
    {
        Func { repr: Rc::clone(&self.repr) }
    }

    /// Whether two handles are the same function.
    pub fn same(&self, other: &Func) -> (r: bool)
        ensures
            r ==> *self == *other,
    {
        same_allocation(&self.repr, &other.repr)
    }

    /// The name of the function.
    pub fn name(&self) -> (r: Option<String>)
        ensures
            match r {
                Some(s) => self.name_of() == Some(s@),
                None => self.name_of() is None,
            },
        decreases self,
    {
        match &*self.repr {
            Repr::Native(n) => Some(n.name.clone()),
            Repr::Closure(c) => match &c.name {
                Some(n) => Some(n.clone()),
                None => None,
            },
            Repr::With(f, _) => f.name(),
        }
    }

    /// The number of positional arguments this function takes, if known.
    pub fn argc(&self) -> (r: Option<usize>)
        ensures
            match r {
                Some(n) => self.argc_of() == Some(n as nat),
                None => self.argc_of() is None,
            },
        decreases self,
    {
        match &*self.repr {
            Repr::Native(_) => None,
            Repr::Closure(c) => Some(count_required(&c.params)),
            Repr::With(f, a) => match f.argc() {
                Some(n) => {
                    let p = count_positional(&a.items);
                    Some(
                        if n >= p {
                            n - p
                        } else {
                            0
                        },
                    )
                },
                None => None,
            },
        }
    }

    /// Execute the function's set rule and return the resulting style map.
    pub fn set(&self, args: Args) -> (r: Result<StyleMap, Diag>)
        ensures
            !(self@ is Native && self@->Native_0.rule is Some) ==> (if args.items@.len() == 0 {
                r matches Ok(m) && m.entries@.len() == 0
            } else {
                r == Err::<StyleMap, Diag>(
                    Diag { span: args.items@[0].span, error: Error::UnexpectedArgument },
                )
            }),
            (self@ is Native && self@->Native_0.rule is Some) ==> ({
                let (m, rest) = rule_upto(
                    self@->Native_0.rule->Some_0@,
                    args.items@,
                    self@->Native_0.rule->Some_0@.len() as int,
                );
                if rest.len() == 0 {
                    r matches Ok(s) && s.entries@ == m
                } else {
                    r == Err::<StyleMap, Diag>(
                        Diag { span: rest[0].span, error: Error::UnexpectedArgument },
                    )
                }
            }),
    {
        let mut args = args;
        let styles = match &*self.repr {
            Repr::Native(n) => match &n.rule {
                Some(props) => apply_rule(props, &mut args),
                None => StyleMap { entries: Vec::new() },
            },
            _ => StyleMap { entries: Vec::new() },
        };
        match args.finish() {
            Ok(()) => Ok(styles),
            Err(e) => Err(e),
        }
    }

    /// The identity tag that show rules use to customize this function.
    pub fn node(&self) -> (r: Result<u64, Error>)
        ensures
            (self@ is Native && self@->Native_0.node is Some) ==> r == Ok::<u64, Error>(
                self@->Native_0.node->Some_0,
            ),
            !(self@ is Native && self@->Native_0.node is Some) ==> r == Err::<u64, Error>(
                Error::NotCustomizable,
            ),
    {
        match &*self.repr {
            Repr::Native(n) => match n.node {
                Some(id) => Ok(id),
                None => Err(Error::NotCustomizable),
            },
            _ => Err(Error::NotCustomizable),
        }
    }

    /// Call the function with the given arguments.
    pub fn call(&self, vm: &mut Machine, args: Args) -> (r: Result<Value, Diag>)
        ensures
            final(vm).route@ == old(vm).route@,
            final(vm).scope.bindings@ == old(vm).scope.bindings@,
            final(vm).depth == old(vm).depth,
            final(vm).flow == old(vm).flow,
            final(vm).deps@.len() >= old(vm).deps@.len(),
            final(vm).deps@.take(old(vm).deps@.len() as int) == old(vm).deps@,
            (self@ is Native && self@->Native_0.rule is None) ==> native_outcome(
                self@->Native_0.op,
                args.span,
                args.items@,
                r,
                true,
            ),
            (self@ is Native && self@->Native_0.rule is Some) ==> native_outcome(
                self@->Native_0.op,
                args.span,
                rule_upto(
                    self@->Native_0.rule->Some_0@,
                    args.items@,
                    self@->Native_0.rule->Some_0@.len() as int,
                ).1,
                r,
                true,
            ),
            (self@ is Closure && bind_all(self@->Closure_0, args.items@) is Err) ==> (r matches Err(d)
                && missing(
                args.span,
                d,
                self@->Closure_0.params@[bind_all(self@->Closure_0, args.items@)->Err_0].0@,
            )),
            (self@ is Closure && bind_all(self@->Closure_0, args.items@) is Ok && old(vm).depth
                == 0) ==> r == Err::<Value, Diag>(
                Diag { span: args.span, error: Error::RecursionLimit },
            ),
            call_outcome(*self, old(vm).depth as nat, args.span, args.items@, r),
        decreases old(vm).depth, 1int, self,
    {
        let mut args = args;
        match &*self.repr {
            Repr::Native(n) => {
                if let Some(props) = &n.rule {
                    let _ = apply_rule(props, &mut args);
                }
                let v = match invoke(n.op, &mut args) {
                    Ok(v) => v,
                    Err(e) => {
                        return Err(e);
                    },
                };
                match args.finish() {
                    Ok(()) => Ok(v),
                    Err(e) => Err(e),
                }
            },
            Repr::Closure(c) => {
                let v = match c.call(vm, &mut args) {
                    Ok(v) => v,
                    Err(e) => {
                        return Err(e);
                    },
                };
                match args.finish() {
                    Ok(()) => Ok(v),
                    Err(e) => Err(e),
                }
            },
            Repr::With(wrapped, applied) => {
                args.prepend(applied);
                wrapped.call(vm, args)
            },
        }
    }

    /// Call the function without an enclosing evaluation: on an empty route,
    /// in an empty scope.
    pub fn call_detached(&self, ctx: &mut Context, args: Args) -> (r: Result<Value, Diag>)
        ensures
            final(ctx).depth == old(ctx).depth,
            final(ctx).deps@.len() >= old(ctx).deps@.len(),
            final(ctx).deps@.take(old(ctx).deps@.len() as int) == old(ctx).deps@,
            (self@ is Native && self@->Native_0.rule is None) ==> native_outcome(
                self@->Native_0.op,
                args.span,
                args.items@,
                r,
                true,
            ),
            call_outcome(*self, old(ctx).depth as nat, args.span, args.items@, r),
            (self@ is Closure && bind_all(self@->Closure_0, args.items@) is Ok && old(ctx).depth
                == 0) ==> r == Err::<Value, Diag>(
                Diag { span: args.span, error: Error::RecursionLimit },
            ),
    {
        let mut vm = Machine::new(Vec::new(), Scope::new(), ctx.depth);
        let r = self.call(&mut vm, args);
        ctx.deps.append(&mut vm.deps);
        r
    }
}

/// What is known of a call's outcome from the callee, the depth that calls
/// may still nest and the arguments. A built-in is exact; a pre-applied
/// function is called on its arguments followed by the new ones; a closure
/// is exact wherever binding fails or its body needs no further call.
pub open spec fn call_outcome(
    f: Func,
    depth: nat,
    span: Span,
    args: Seq<Arg>,
    r: Result<Value, Diag>,
) -> bool
    decreases f,
{
    match f@ {
        Repr::Native(n) => native_outcome(
            n.op,
            span,
            match n.rule {
                Some(p) => rule_upto(p@, args, p@.len() as int).1,
                None => args,
            },
            r,
            true,
        ),
        Repr::With(g, a) => call_outcome(g, depth, span, a.items@ + args, r),
        Repr::Closure(c) => closure_outcome(c, depth, span, args, r),
    }
}

/// A call that succeeds with some value.
pub open spec fn succeeds(f: Func, depth: nat, span: Span, args: Seq<Arg>) -> bool {
    exists|v: Value| #[trigger] call_outcome(f, depth, span, args, Ok(v))
}

/// A closure's settled result, then checked for arguments left over.
pub open spec fn finished(res: Result<Value, Diag>, left: Seq<Arg>, r: Result<Value, Diag>) -> bool {
    match res {
        Ok(v) => if left.len() > 0 {
            r == Err::<Value, Diag>(Diag { span: left[0].span, error: Error::UnexpectedArgument })
        } else {
            r == Ok::<Value, Diag>(v)
        },
        Err(e) => r == Err::<Value, Diag>(e),
    }
}

/// What binding and the body fix of a closure call's outcome.
pub open spec fn closure_outcome(
    c: Closure,
    depth: nat,
    span: Span,
    args: Seq<Arg>,
    r: Result<Value, Diag>,
) -> bool {
    match bind_all(c, args) {
        Err(k) => r matches Err(d) && missing(span, d, c.params@[k].0@),
        Ok(b) => if depth == 0 {
            r == Err::<Value, Diag>(Diag { span, error: Error::RecursionLimit })
        } else {
            let left = if c.sink is None {
                b.1
            } else {
                Seq::empty()
            };
            match eval_outcome(*c.body, b.0, c.sink) {
                Some(o) => finished(settle_spec(o.1, o.0), left, r),
                None => r is Ok ==> left.len() == 0,
            }
        },
    }
}

/// What a built-in operation does with the arguments: it consumes `x` and
/// `y`, both integers, and computes. With `finish`, an argument left over
/// is an error too.
pub open spec fn native_outcome(
    op: Op,
    span: Span,
    a: Seq<Arg>,
    r: Result<Value, Diag>,
    finish: bool,
) -> bool {
    let kx = fit_index(a, x_name());
    let a1 = a.remove(kx);
    let ky = fit_index(a1, y_name());
    let a2 = a1.remove(ky);
    let err = |e: Error| r == Err::<Value, Diag>(Diag { span: span, error: e });
    if kx < 0 {
        r matches Err(d) && missing(span, d, x_name())
    } else if ky < 0 {
        r matches Err(d) && missing(span, d, y_name())
    } else if !(a[kx].value is Int) {
        err(Error::TypeMismatch { expected: Kind::Int, found: kind_of(a[kx].value) })
    } else if !(a1[ky].value is Int) {
        err(Error::TypeMismatch { expected: Kind::Int, found: kind_of(a1[ky].value) })
    } else {
        match op_result(op, int_of(a[kx].value), int_of(a1[ky].value)) {
            None => err(Error::Overflow),
            Some(v) => if finish && a2.len() > 0 {
                r == Err::<Value, Diag>(Diag { span: a2[0].span, error: Error::UnexpectedArgument })
            } else {
                r == Ok::<Value, Diag>(v)
            },
        }
    }
}

/// The arguments a built-in operation leaves unconsumed.
pub open spec fn native_rest(args: Seq<Arg>) -> Seq<Arg> {
    let a1 = args.remove(fit_index(args, x_name()));
    a1.remove(fit_index(a1, y_name()))
}

/// Consumes, for each property in order, the arguments named so; the last
/// one of each goes into the map.
pub open spec fn rule_upto(props: Seq<String>, args: Seq<Arg>, n: int) -> (Seq<(String, Value)>, Seq<Arg>)
    decreases n,
{
    if n <= 0 {
        (Seq::empty(), args)
    } else {
        let (m, rest) = rule_upto(props, args, n - 1);
        let p = props[n - 1];
        (
            match last_named(rest, p@) {
                Some(v) => m.push((p, v)),
                None => m,
            },
            without_name(rest, p@),
        )
    }
}

fn apply_rule(props: &Vec<String>, args: &mut Args) -> (r: StyleMap)
    ensures
        final(args).span == old(args).span,
        (r.entries@, final(args).items@) == rule_upto(props@, old(args).items@, props@.len() as int),
{
    let mut m: Vec<(String, Value)> = Vec::new();
    let mut i: usize = 0;
    while i < props.len()
        invariant
            i <= props@.len(),
            args.span == old(args).span,
            (m@, args.items@) == rule_upto(props@, old(args).items@, i as int),
        decreases props@.len() - i,
    {
        match args.named(props[i].as_str()) {
            Some(v) => {
                m.push((props[i].clone(), v));
            },
            None => {},
        }
        i = i + 1;
    }
    StyleMap { entries: m }
}

fn count_required(params: &Vec<(String, Option<Value>)>) -> (r: usize)
    ensures
        r == required(params@),
{
    let mut n: usize = 0;
    let mut i: usize = 0;
    while i < params.len()
        invariant
            i <= params@.len(),
            n == required(params@.take(i as int)),
            n <= i,
        decreases params@.len() - i,
    {
        proof {
            let f = |p: (String, Option<Value>)| p.1 is None;
            assert(params@.take(i + 1) == params@.take(i as int).push(params@[i as int]));
            params@.take(i as int).lemma_filter_push(params@[i as int], f);
        }
        if params[i].1.is_none() {
            n = n + 1;
        }
        i = i + 1;
    }
    assert(params@.take(i as int) == params@);
    n
}

fn count_positional(items: &Vec<Arg>) -> (r: usize)
    ensures
        r == positional(items@),
{
    let mut n: usize = 0;
    let mut i: usize = 0;
    while i < items.len()
        invariant
            i <= items@.len(),
            n == positional(items@.take(i as int)),
            n <= i,
        decreases items@.len() - i,
    {
        proof {
            let f = |a: Arg| a.name is None;
            assert(items@.take(i + 1) == items@.take(i as int).push(items@[i as int]));
            items@.take(i as int).lemma_filter_push(items@[i as int], f);
        }
        if items[i].name.is_none() {
            n = n + 1;
        }
        i = i + 1;
    }
    assert(items@.take(i as int) == items@);
    n
}

fn invoke(op: Op, args: &mut Args) -> (r: Result<Value, Diag>)
    ensures
        final(args).span == old(args).span,
        native_outcome(op, old(args).span, old(args).items@, r, false),
        r is Ok ==> final(args).items@ == native_rest(old(args).items@),
{
    proof {
        reveal_strlit("x");
        reveal_strlit("y");
        assert("x"@ == x_name());
        assert("y"@ == y_name());
        lemma_fit_index_bounds(old(args).items@, x_name());
        lemma_fit_index_bounds(old(args).items@.remove(fit_index(old(args).items@, x_name())), y_name());
    }
    let x = match args.expect("x") {
        Ok(v) => v,
        Err(e) => {
            return Err(e);
        },
    };
    let y = match args.expect("y") {
        Ok(v) => v,
        Err(e) => {
            return Err(e);
        },
    };
    let (a, b) = match (x, y) {
        (Value::Int(a), Value::Int(b)) => (a, b),
        (Value::Int(_), other) => {
            let k = other.kind();
            return Err(Diag { span: args.span, error: Error::TypeMismatch { expected: Kind::Int, found: k } });
        },
        (other, _) => {
            let k = other.kind();
            return Err(Diag { span: args.span, error: Error::TypeMismatch { expected: Kind::Int, found: k } });
        },
    };
    match op {
        Op::Gt => Ok(Value::Bool(a > b)),
        Op::Lt => Ok(Value::Bool(a < b)),
        Op::Add => match a.checked_add(b) {
            Some(s) => Ok(Value::Int(s)),
            None => Err(Diag { span: args.span, error: Error::Overflow }),
        },
    }
}

/// Once a parameter is missing, binding more parameters reports the same
/// one.
proof fn lemma_bind_err_stays(
    params: Seq<(String, Option<Value>)>,
    scope: Seq<(String, Value)>,
    args: Seq<Arg>,
    n: int,
    m: int,
)
    requires
        0 <= n <= m,
        bind_upto(params, scope, args, n) is Err,
    ensures
        bind_upto(params, scope, args, m) == bind_upto(params, scope, args, n),
    decreases m - n,
{
    if n < m {
        lemma_bind_err_stays(params, scope, args, n, m - 1);
    }
}

/// Binding parameters only adds bindings of the parameters' names, so a
/// name that is no parameter looks up as in the scope bound on.
proof fn lemma_bind_lookup(
    params: Seq<(String, Option<Value>)>,
    scope: Seq<(String, Value)>,
    args: Seq<Arg>,
    n: int,
    x: Seq<char>,
)
    requires
        0 <= n <= params.len(),
        bind_upto(params, scope, args, n) is Ok,
        forall|k: int| 0 <= k < params.len() ==> (#[trigger] params[k]).0@ != x,
    ensures
        lookup(bind_upto(params, scope, args, n)->Ok_0.0, x) == lookup(scope, x),
    decreases n,
{
    if n > 0 {
        let prev = bind_upto(params, scope, args, n - 1);
        assert(prev is Ok);
        lemma_bind_lookup(params, scope, args, n - 1, x);
        let sc = bind_upto(params, scope, args, n)->Ok_0.0;
        assert(params[n - 1].0@ != x);
        assert(sc.drop_last() == prev->Ok_0.0);
    }
}

/// Capture happens at definition: inside a closure, every name that is not
/// one of its parameters has the value it had when the closure was made,
/// whatever the caller has bound since.
pub proof fn law_capture_at_definition(c: Closure, args: Seq<Arg>, x: Seq<char>)
    requires
        bind_all(c, args) is Ok,
        forall|k: int| 0 <= k < c.params@.len() ==> (#[trigger] c.params@[k]).0@ != x,
    ensures
        lookup(bind_all(c, args)->Ok_0.0, x) == lookup(c.captured.bindings@, x),
{
    lemma_bind_lookup(c.params@, c.captured.bindings@, args, c.params@.len() as int, x);
}

proof fn lemma_no_named(s: Seq<Arg>, name: Seq<char>)
    requires
        forall|i: int| 0 <= i < s.len() ==> !named_as(#[trigger] s[i], name),
    ensures
        last_named(s, name) is None,
        without_name(s, name) == s,
    decreases s.len(),
{
    if s.len() > 0 {
        lemma_no_named(s.drop_last(), name);
        assert(s.drop_last().push(s.last()) == s);
    }
}

/// A parameter with a default is never filled by a positional argument:
/// without an argument of its name, the default binds and the arguments
/// stay as they are.
pub proof fn law_default_ignores_positional(
    p: String,
    d: Value,
    scope: Seq<(String, Value)>,
    args: Seq<Arg>,
)
    requires
        forall|i: int| 0 <= i < args.len() ==> !named_as(#[trigger] args[i], p@),
    ensures
        bind_upto(seq![(p, Some(d))], scope, args, 1) == Ok::<
            (Seq<(String, Value)>, Seq<Arg>),
            int,
        >((scope.push((p, d)), args)),
{
    lemma_no_named(args, p@);
    reveal_with_fuel(bind_upto, 2);
    let params = seq![(p, Some(d))];
    assert(params[0] == (p, Some(d)));
    assert(bind_upto(params, scope, args, 0) == Ok::<(Seq<(String, Value)>, Seq<Arg>), int>((scope, args)));
}

/// A parameter with a default takes the value of an argument of its name.
pub proof fn law_default_takes_named(
    p: String,
    d: Value,
    scope: Seq<(String, Value)>,
    args: Seq<Arg>,
    span: Span,
    v: Value,
)
    ensures
        bind_upto(
            seq![(p, Some(d))],
            scope,
            args.push(Arg { span, name: Some(p), value: v }),
            1,
        ) matches Ok(b) && b.0 == scope.push((p, v)),
{
    let a = args.push(Arg { span, name: Some(p), value: v });
    assert(a.last() == Arg { span, name: Some(p), value: v });
    assert(named_as(a.last(), p@));
    assert(last_named(a, p@) == Some(v));
    reveal_with_fuel(bind_upto, 2);
    let params = seq![(p, Some(d))];
    assert(params[0] == (p, Some(d)));
    assert(bind_upto(params, scope, a, 0) == Ok::<(Seq<(String, Value)>, Seq<Arg>), int>((scope, a)));
}

/// The outcome of a closure body once its pending control flow is settled.
pub open spec fn settle_spec(flow: Option<Flow>, result: Result<Value, Diag>) -> Result<Value, Diag> {
    match flow {
        Some(Flow::Return(_, Some(v))) => Ok(v),
        Some(Flow::Return(_, None)) => result,
        Some(Flow::Break(s)) => Err(Diag { span: s, error: Error::ForbiddenControlFlow }),
        Some(Flow::Continue(s)) => Err(Diag { span: s, error: Error::ForbiddenControlFlow }),
        None => result,
    }
}

/// Settle the control flow that a closure body left pending: a return
/// with a value gives that value, a bare return the body's value; a break
/// or continue must not escape a closure.
pub fn settle(flow: Option<Flow>, result: Result<Value, Diag>) -> (r: Result<Value, Diag>)
    ensures
        r == settle_spec(flow, result),
{
    match flow {
        Some(Flow::Return(_, Some(v))) => Ok(v),
        Some(Flow::Return(_, None)) => result,
        Some(Flow::Break(s)) => Err(Diag { span: s, error: Error::ForbiddenControlFlow }),
        Some(Flow::Continue(s)) => Err(Diag { span: s, error: Error::ForbiddenControlFlow }),
        None => result,
    }
}

/// The route inside a closure: a top-level call starts afresh from where the
/// closure was defined, a nested one keeps the caller's.
pub fn route_for(route: &Vec<u64>, location: Option<u64>) -> (r: Vec<u64>)
    ensures
        r@ == route_spec(route@, location),
{
    let mut out: Vec<u64> = Vec::new();
    if route.len() == 0 {
        if let Some(l) = location {
            out.push(l);
        }
        return out;
    }
    let mut i: usize = 0;
    while i < route.len()
        invariant
            i <= route@.len(),
            out@ == route@.take(i as int),
        decreases route@.len() - i,
    {
        out.push(route[i]);
        assert(route@.take(i + 1) == route@.take(i as int).push(route@[i as int]));
        i = i + 1;
    }
    assert(route@.take(i as int) == route@);
    out
}

impl Closure {
    /// Bind the arguments to the parameters, on top of the captured scope.
    /// A parameter without default takes the first argument that is
    /// positional or named so; one with a default takes only an argument
    /// named so. The sink, if any, collects what is left.
    pub fn bind(&self, args: &mut Args) -> (r: Result<Scope, Diag>)
        ensures
            final(args).span == old(args).span,
            bind_all(*self, old(args).items@) matches Err(k) ==> (r matches Err(d) && missing(
                old(args).span,
                d,
                self.params@[k].0@,
            )),
            bind_all(*self, old(args).items@) matches Ok(b) ==> (r matches Ok(s) && (
            match self.sink {
                None => s.bindings@ == b.0 && final(args).items@ == b.1,
                Some(n) => {
                    &&& s.bindings@.len() == b.0.len() + 1
                    &&& s.bindings@.drop_last() == b.0
                    &&& s.bindings@.last().0 == n
                    &&& s.bindings@.last().1 matches Value::Array(a) && a@ == values(b.1)
                    &&& final(args).items@ == Seq::<Arg>::empty()
                },
            })),
    {
        let mut scope = self.captured.copy();
        let mut i: usize = 0;
        while i < self.params.len()
            invariant
                i <= self.params@.len(),
                args.span == old(args).span,
                bind_upto(self.params@, self.captured.bindings@, old(args).items@, i as int) == Ok::<
                    (Seq<(String, Value)>, Seq<Arg>),
                    int,
                >((scope.bindings@, args.items@)),
            decreases self.params@.len() - i,
        {
            let name = &self.params[i].0;
            let v = match &self.params[i].1 {
                None => match args.expect(name.as_str()) {
                    Ok(v) => v,
                    Err(e) => {
                        proof {
                            lemma_bind_err_stays(
                                self.params@,
                                self.captured.bindings@,
                                old(args).items@,
                                i + 1,
                                self.params@.len() as int,
                            );
                        }
                        return Err(e);
                    },
                },
                Some(d) => match args.named(name.as_str()) {
                    Some(v) => v,
                    None => d.copy(),
                },
            };
            scope.define(name.clone(), v);
            i = i + 1;
        }
        if let Some(s) = &self.sink {
            let rest = args.take();
            scope.define(s.clone(), Value::Array(rest));
        }
        Ok(scope)
    }

    /// Call the closure: bind the arguments, evaluate the body in the bound
    /// scope on the closure's route, collect its dependencies and settle its
    /// control flow. The caller's scope is never visible to the body.
    pub fn call(&self, vm: &mut Machine, args: &mut Args) -> (r: Result<Value, Diag>)
        ensures
            final(vm).route@ == old(vm).route@,
            final(vm).scope.bindings@ == old(vm).scope.bindings@,
            final(vm).depth == old(vm).depth,
            final(vm).flow == old(vm).flow,
            final(vm).deps@.len() >= old(vm).deps@.len(),
            final(vm).deps@.take(old(vm).deps@.len() as int) == old(vm).deps@,
            final(args).span == old(args).span,
            bind_all(*self, old(args).items@) matches Err(k) ==> (r matches Err(d) && missing(
                old(args).span,
                d,
                self.params@[k].0@,
            )),
            bind_all(*self, old(args).items@) is Err ==> final(vm).deps@ == old(vm).deps@,
            bind_all(*self, old(args).items@) matches Ok(b) ==> final(args).items@ == (
            if self.sink is None {
                b.1
            } else {
                Seq::<Arg>::empty()
            }),
            (bind_all(*self, old(args).items@) is Ok && old(vm).depth == 0) ==> r == Err::<
                Value,
                Diag,
            >(Diag { span: old(args).span, error: Error::RecursionLimit }),
            (bind_all(*self, old(args).items@) is Ok && old(vm).depth > 0 && eval_outcome(
                *self.body,
                bind_all(*self, old(args).items@)->Ok_0.0,
                self.sink,
            ) is Some) ==> r == settle_spec(
                eval_outcome(*self.body, bind_all(*self, old(args).items@)->Ok_0.0, self.sink)->Some_0.1,
                eval_outcome(*self.body, bind_all(*self, old(args).items@)->Ok_0.0, self.sink)->Some_0.0,
            ),
            (bind_all(*self, old(args).items@) is Ok && old(vm).depth > 0) ==> ({
                &&& (*self.body is Ident && self.sink is Some && self.sink->Some_0@
                    == self.body->Ident_1@)
                    ==> (r matches Ok(Value::Array(a)) && a@ == values(
                    bind_all(*self, old(args).items@)->Ok_0.1,
                ))
            }),
        decreases old(vm).depth, 0int,
    {
        let scope = match self.bind(args) {
            Ok(s) => s,
            Err(e) => {
                return Err(e);
            },
        };
        if vm.depth == 0 {
            return Err(Diag { span: args.span, error: Error::RecursionLimit });
        }
        let route = route_for(&vm.route, self.location);
        let mut sub = Machine::new(route, scope, vm.depth - 1);
        let ghost bound = scope.bindings@;
        let result = self.body.eval(&mut sub);
        proof {
            if self.sink is Some && bound.len() > 0 {
                assert(bound.drop_last() == bind_all(*self, old(args).items@)->Ok_0.0);
            }
        }
        vm.deps.append(&mut sub.deps);
        settle(sub.flow, result)
    }
}

impl PartialEq for Func {
    fn eq(&self, other: &Func) -> (r: bool) {
        self.same(other)
    }
}

impl vstd::std_specs::cmp::PartialEqSpecImpl for Func {
    open spec fn obeys_eq_spec() -> bool {
        false
    }

    open spec fn eq_spec(&self, other: &Func) -> bool {
        *self == *other
    }
}

} // verus!
