//! The calling core of a small dynamically typed evaluator: persistent
//! sequences of values, callable values (natives, closures and partial
//! applications) and the protocol that binds arguments to closure parameters.

mod args;
mod array;
mod expr;
mod func;
mod scope;
mod value;

pub use args::{Arg, Args};
pub use array::{Array, Target};
pub use expr::{ArgExpr, ClosureExpr, Expr};
pub use func::{route_for, settle, Closure, Func, Native, Op, Repr, StyleMap};
pub use scope::{Context, Flow, Machine, Scope};
pub use value::{Diag, Error, Kind, Span, Value};
