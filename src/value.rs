use vstd::prelude::*;

use crate::array::{no_funcs, same_value, Array};

verus! {

/// An opaque source location token.
#[derive(Clone, Copy, Debug, PartialEq, Eq, Hash, Structural)]
pub struct Span {
    pub id: u64,
}

/// The type of a value, used in diagnostics.
#[derive(Clone, Copy, Debug, PartialEq, Eq, Hash, Structural)]
pub enum Kind {
    Nil,
    Bool,
    Int,
    Str,
    Array,
    Func,
}

/// A dynamic value of the language.
#[derive(Debug, PartialEq, Hash)]
pub enum Value {
    /// The absent value.
    Nil,
    Bool(bool),
    Int(i64),
    Str(String),
    Array(Array),
    Func(crate::func::Func),
}

/// Everything that can go wrong in this core.
#[derive(Debug, Clone, PartialEq)]
pub enum Error {
    /// A logical index that does not resolve into the sequence.
    OutOfBounds { index: i64, len: i64 },
    /// `pop` on an empty sequence.
    EmptySequence,
    /// A repetition count that is negative or makes the length overflow.
    RepeatOverflow { n: i64 },
    /// Two values that have no order between them.
    IncomparableValues { left: Kind, right: Kind },
    /// Two values that cannot be joined.
    CannotJoin { left: Kind, right: Kind },
    /// A parameter without default for which no argument was given.
    MissingArgument { name: String },
    /// An argument that nothing consumed.
    UnexpectedArgument,
    /// A value of the wrong type.
    TypeMismatch { expected: Kind, found: Kind },
    /// A function without an identity tag.
    NotCustomizable,
    /// A break or continue that escaped a closure.
    ForbiddenControlFlow,
    /// A variable that is not bound in scope.
    UnknownVariable { name: String },
    /// Integer arithmetic that overflowed.
    Overflow,
    /// Closure calls nested deeper than the context allows.
    RecursionLimit,
}

/// An error together with the place in the source it belongs to.
#[derive(Debug, Clone, PartialEq)]
pub struct Diag {
    pub span: Span,
    pub error: Error,
}

pub open spec fn kind_of(v: Value) -> Kind {
    match v {
        Value::Nil => Kind::Nil,
        Value::Bool(_) => Kind::Bool,
        Value::Int(_) => Kind::Int,
        Value::Str(_) => Kind::Str,
        Value::Array(_) => Kind::Array,
        Value::Func(_) => Kind::Func,
    }
}

/// Values compared by content: the absent value, booleans, integers and
/// strings.
pub open spec fn is_plain(v: Value) -> bool {
    v is Nil || v is Bool || v is Int || v is Str
}

/// Equality of plain values; strings compare by their characters.
pub open spec fn plain_match(a: Value, b: Value) -> bool {
    match (a, b) {
        (Value::Nil, Value::Nil) => true,
        (Value::Bool(x), Value::Bool(y)) => x == y,
        (Value::Int(x), Value::Int(y)) => x == y,
        (Value::Str(x), Value::Str(y)) => x@ == y@,
        _ => false,
    }
}

/// Values that the partial order covers are the integers. The order of
/// other kinds belongs to the value model around this core, which defines
/// none here; such items are reported as incomparable.
pub open spec fn comparable(a: Value, b: Value) -> bool {
    a is Int && b is Int
}

pub open spec fn int_of(v: Value) -> int {
    match v {
        Value::Int(n) => n as int,
        _ => 0,
    }
}

/// Text carried by a value that takes part in joining: strings, and the
/// absent value as the empty text.
pub open spec fn is_text(v: Value) -> bool {
    v is Nil || v is Str
}

pub open spec fn text_of(v: Value) -> Seq<char> {
    match v {
        Value::Str(s) => s@,
        _ => Seq::empty(),
    }
}

/// What joining two text values yields: the absent value is neutral on
/// either side, two strings concatenate.
pub open spec fn joins_to(a: Value, b: Value, r: Value) -> bool {
    if a is Nil {
        r == b
    } else if b is Nil {
        r == a
    } else {
        r is Str && text_of(r) == text_of(a) + text_of(b)
    }
}

impl Value {
    /// The kind of this value.
    pub fn kind(&self) -> (r: Kind)
        ensures
            r == kind_of(*self),
    {
        match self {
            Value::Nil => Kind::Nil,
            Value::Bool(_) => Kind::Bool,
            Value::Int(_) => Kind::Int,
            Value::Str(_) => Kind::Str,
            Value::Array(_) => Kind::Array,
            Value::Func(_) => Kind::Func,
        }
    }

    /// A copy of this value; arrays and functions share their storage.
    pub fn copy(&self) -> (r: Value)
        ensures
            r == *self,
    {
        match self {
            Value::Nil => Value::Nil,
            Value::Bool(b) => Value::Bool(*b),
            Value::Int(n) => Value::Int(*n),
            Value::Str(s) => Value::Str(s.clone()),
            Value::Array(a) => Value::Array(a.copy()),
            Value::Func(f) => Value::Func(f.share()),
        }
    }

    /// Whether two values are equal. Functions are equal only where they
    /// are the same allocation.
    pub fn equals(&self, other: &Value) -> (r: bool)
        ensures
            r ==> kind_of(*self) == kind_of(*other),
            is_plain(*self) ==> (r == plain_match(*self, *other)),
            r ==> same_value(*self, *other),
            no_funcs(*self) ==> (r == same_value(*self, *other)),
        decreases self,
    {
        match (self, other) {
            (Value::Nil, Value::Nil) => true,
            (Value::Bool(a), Value::Bool(b)) => *a == *b,
            (Value::Int(a), Value::Int(b)) => *a == *b,
            (Value::Str(a), Value::Str(b)) => *a == *b,
            (Value::Array(a), Value::Array(b)) => a.equals(b),
            (Value::Func(a), Value::Func(b)) => a.same(b),
            _ => false,
        }
    }
}

/// Joins two values: the absent value is neutral, strings concatenate,
/// anything else cannot be joined.
pub fn join(a: Value, b: Value) -> (r: Result<Value, Error>)
    ensures
        (is_text(a) && is_text(b)) ==> (r matches Ok(v) && joins_to(a, b, v)),
        !(is_text(a) && is_text(b)) ==> r == Err::<Value, Error>(
            Error::CannotJoin { left: kind_of(a), right: kind_of(b) },
        ),
{
    match (a, b) {
        (Value::Nil, b) => {
            if b.is_text() {
                Ok(b)
            } else {
                let k = b.kind();
                Err(Error::CannotJoin { left: Kind::Nil, right: k })
            }
        },
        (a, Value::Nil) => {
            if a.is_text() {
                Ok(a)
            } else {
                let k = a.kind();
                Err(Error::CannotJoin { left: k, right: Kind::Nil })
            }
        },
        (Value::Str(x), Value::Str(y)) => {
            let mut s = x;
            s.append(y.as_str());
            Ok(Value::Str(s))
        },
        (a, b) => {
            let l = a.kind();
            let r = b.kind();
            Err(Error::CannotJoin { left: l, right: r })
        },
    }
}

impl Clone for Value {
    fn clone(&self) -> (r: Value)
        ensures
            r == *self,
    {
        self.copy()
    }
}

impl Value {
    pub(crate) fn is_int(&self) -> (r: bool)
        ensures
            r == (*self is Int),
    {
        match self {
            Value::Int(_) => true,
            _ => false,
        }
    }

    pub(crate) fn int_or_zero(&self) -> (r: i64)
        ensures
            r == int_of(*self),
    {
        match self {
            Value::Int(n) => *n,
            _ => 0,
        }
    }

    fn is_text(&self) -> (r: bool)
        ensures
            r == is_text(*self),
    {
        match self {
            Value::Nil => true,
            Value::Str(_) => true,
            _ => false,
        }
    }
}

} // verus!
