use vstd::prelude::*;
use std::rc::Rc;
use vstd::multiset::Multiset;

use crate::args::{Arg, Args};
use crate::func::{call_outcome, succeeds, Func};
use crate::scope::Machine;
use crate::value::{
    comparable, int_of, is_plain, is_text, join, joins_to, kind_of, plain_match, text_of, Diag, Error,
    Kind, Span, Value,
};

verus! {

broadcast use {vstd::std_specs::vec::group_vec_axioms, vstd::seq_lib::group_to_multiset_ensures};

/// An ordered sequence of values. Handles share their storage; a mutation
/// first takes exclusive access, cloning the storage if it is shared, so a
/// handle never observes a mutation made through another.
#[derive(Debug, PartialEq, Hash)]
pub struct Array {
    items: Rc<Vec<Value>>,
}

/// Relies on Rc::make_mut: it clones the vector into a fresh allocation when
/// the allocation is shared, and then hands out the one copy.
#[verifier::external_body]
fn unique_mut(rc: &mut Rc<Vec<Value>>) -> (r: &mut Vec<Value>)
    ensures
        r@ == (**old(rc))@,
        (**final(rc))@ == final(r)@,
{
    Rc::make_mut(rc)
}

/// Resolves a signed logical index: non-negative indices count from the
/// front, negative ones from the back.
pub open spec fn resolve(index: int, len: int) -> int {
    if index >= 0 {
        index
    } else {
        len + index
    }
}

/// The gap that precedes item `i` when joining `len` items.
pub open spec fn gap(len: int, i: int, sep: Value, last: Option<Value>) -> Value {
    if i + 1 == len && last is Some {
        last.unwrap()
    } else {
        sep
    }
}

/// The operands that joining the first `n` items folds, in order.
pub open spec fn join_operands(s: Seq<Value>, sep: Value, last: Option<Value>, n: int) -> Seq<Value>
    decreases n,
{
    if n <= 0 {
        Seq::empty()
    } else if n == 1 {
        seq![s[0]]
    } else {
        join_operands(s, sep, last, n - 1) + seq![gap(s.len() as int, n - 1, sep, last), s[n - 1]]
    }
}

/// The separator that joining uses: the one given, or the absent value.
pub open spec fn sep_or_nil(sep: Option<Value>) -> Value {
    match sep {
        Some(v) => v,
        None => Value::Nil,
    }
}

pub open spec fn all_text(s: Seq<Value>) -> bool {
    forall|i: int| 0 <= i < s.len() ==> is_text(#[trigger] s[i])
}

pub open spec fn all_nil(s: Seq<Value>) -> bool {
    forall|i: int| 0 <= i < s.len() ==> (#[trigger] s[i]) is Nil
}

/// `j` is the first operand that is not text.
pub open spec fn first_non_text(s: Seq<Value>, j: int) -> bool {
    &&& 0 <= j < s.len()
    &&& !is_text(s[j])
    &&& forall|i: int| 0 <= i < j ==> is_text(#[trigger] s[i])
}

/// The error of joining at the first operand that is not text: what was
/// folded so far is the absent value only if every operand before was.
pub open spec fn join_error(s: Seq<Value>, j: int) -> Error {
    Error::CannotJoin {
        left: if all_nil(s.take(j)) {
            Kind::Nil
        } else {
            Kind::Str
        },
        right: kind_of(s[j]),
    }
}

proof fn lemma_first_non_text(s: Seq<Value>, j: int)
    requires
        0 <= j < s.len(),
        !is_text(s[j]),
        forall|i: int| 0 <= i < j ==> is_text(#[trigger] s[i]),
    ensures
        forall|m: int| first_non_text(s, m) ==> m == j,
{
    assert forall|m: int| first_non_text(s, m) implies m == j by {
        if m < j {
            assert(is_text(s[m]));
        } else if m > j {
            assert(is_text(s[j]));
        }
    }
}

/// The text of a sequence of text values, concatenated.
pub open spec fn text_concat(s: Seq<Value>) -> Seq<char>
    decreases s.len(),
{
    if s.len() == 0 {
        Seq::empty()
    } else {
        text_concat(s.drop_last()) + text_of(s.last())
    }
}

/// Whether the integers of a sequence ascend.
pub open spec fn ascending(s: Seq<Value>) -> bool {
    forall|i: int, j: int| 0 <= i <= j < s.len() ==> int_of(#[trigger] s[i]) <= int_of(#[trigger] s[j])
}

/// The first position whose element has no order with its successor.
pub open spec fn is_first_incomparable(s: Seq<Value>, i: int) -> bool {
    &&& 0 <= i < s.len() - 1
    &&& !comparable(s[i], s[i + 1])
    &&& forall|k: int| 0 <= k < i ==> comparable(#[trigger] s[k], s[k + 1])
}

pub open spec fn all_comparable(s: Seq<Value>) -> bool {
    forall|k: int| 0 <= k < s.len() - 1 ==> comparable(#[trigger] s[k], s[k + 1])
}

/// `t` is what sorting `s` gives: an ascending reordering of the same
/// items, and `s` itself where it already ascends.
pub open spec fn sorts_to(s: Seq<Value>, t: Seq<Value>) -> bool {
    &&& ascending(t)
    &&& all_comparable(t)
    &&& t.to_multiset() == s.to_multiset()
    &&& ascending(s) ==> t == s
}

impl Array {
    pub closed spec fn view(&self) -> Seq<Value> {
        (*self.items)@
    }

    /// The elements of the first `n` items with nested arrays flattened.
    pub open spec fn flat_upto(s: Seq<Value>, n: int) -> Seq<Value>
        decreases s, n,
    {
        if n <= 0 || n > s.len() {
            Seq::empty()
        } else {
            Self::flat_upto(s, n - 1) + match s[n - 1] {
                Value::Array(a) => Self::flat_upto(a@, a@.len() as int),
                v => seq![v],
            }
        }
    }

    /// Create a new, empty array.
    pub fn new() -> (r: Array)
        ensures
            r@ == Seq::<Value>::empty(),
    {
        Array { items: Rc::new(Vec::new()) }
    }

    /// Create a new array from a vector of values.
    pub fn from_vec(vec: Vec<Value>) -> (r: Array)
        ensures
            r@ == vec@,
    {
        Array { items: Rc::new(vec) }
    }

    /// Whether the array is empty.
    pub fn is_empty(&self) -> (r: bool)
        ensures
            r == (self@.len() == 0),
    {
        self.items.len() == 0
    }

    /// The length of the array.
    pub fn len(&self) -> (r: i64)
        requires
            self@.len() <= i64::MAX,
        ensures
            r == self@.len(),
    {
        self.items.len() as i64
    }

    /// Resolve an index into a position, if it is not before the start.
    /// Callers check the position against the length themselves.
    fn locate(&self, index: i64) -> (r: Option<u64>)
        requires
            self@.len() <= i64::MAX,
        ensures
            r is Some <==> 0 <= resolve(index as int, self@.len() as int),
            r matches Some(p) ==> p == resolve(index as int, self@.len() as int),
    {
        let len = self.len();
        let p: i64 = if index >= 0 {
            index
        } else {
            len + index
        };
        if p >= 0 {
            Some(p as u64)
        } else {
            None
        }
    }

    /// Borrow the value at the given index.
    pub fn get(&self, index: i64) -> (r: Result<&Value, Error>)
        requires
            self@.len() <= i64::MAX,
        ensures
            ({
                let p = resolve(index as int, self@.len() as int);
                &&& (0 <= p < self@.len()) ==> r == Ok::<&Value, Error>(&self@[p])
                &&& !(0 <= p < self@.len()) ==> r == Err::<&Value, Error>(
                    out_of_bounds_spec(index, self@.len() as i64),
                )
            }),
    {
        match self.locate(index) {
            Some(p) => {
                if p < self.items.len() as u64 {
                    return Ok(&self.items[p as usize]);
                }
            },
            None => {},
        }
        Err(out_of_bounds(index, self.len()))
    }

    /// Mutably borrow the value at the given index.
    pub fn get_mut(&mut self, index: i64) -> (r: Result<&mut Value, Error>)
        requires
            old(self)@.len() <= i64::MAX,
        ensures
            ({
                let p = resolve(index as int, old(self)@.len() as int);
                &&& (0 <= p < old(self)@.len()) ==> (r matches Ok(v) && *v == old(self)@[p]
                    && final(self)@ == old(self)@.update(p, *final(v)))
                &&& !(0 <= p < old(self)@.len()) ==> (r matches Err(e) && e == out_of_bounds_spec(
                    index,
                    old(self)@.len() as i64,
                ) && final(self)@ == old(self)@)
            }),
    {
        let len = self.len();
        match self.locate(index) {
            Some(p) => {
                if p < self.items.len() as u64 {
                    return Ok(&mut unique_mut(&mut self.items)[p as usize]);
                }
            },
            None => {},
        }
        Err(out_of_bounds(index, len))
    }

    /// Append the items of another array. Storage that the other array
    /// alone holds is moved; shared storage is copied from.
    pub fn append(&mut self, rhs: Array)
        ensures
            final(self)@ == old(self)@ + rhs@,
    {
        let ghost tail = rhs@;
        let target = unique_mut(&mut self.items);
        match Rc::try_unwrap(rhs.items) {
            Ok(mut vec) => {
                target.append(&mut vec);
            },
            Err(shared) => {
                let ghost head = target@;
                let mut i: usize = 0;
                while i < shared.len()
                    invariant
                        i <= shared@.len(),
                        shared@ == tail,
                        target@ == head + tail.take(i as int),
                    decreases shared@.len() - i,
                {
                    target.push(shared[i].copy());
                    assert(tail.take(i + 1) == tail.take(i as int).push(tail[i as int]));
                    i = i + 1;
                }
                assert(tail.take(i as int) == tail);
            },
        }
    }

    /// Push a value to the end of the array.
    pub fn push(&mut self, value: Value)
        ensures
            final(self)@ == old(self)@.push(value),
    {
        unique_mut(&mut self.items).push(value);
    }

    /// Remove the last value in the array.
    pub fn pop(&mut self) -> (r: Result<(), Error>)
        ensures
            old(self)@.len() == 0 ==> r == Err::<(), Error>(Error::EmptySequence) && final(self)@
                == old(self)@,
            old(self)@.len() > 0 ==> r == Ok::<(), Error>(()) && final(self)@
                == old(self)@.drop_last(),
    {
        match unique_mut(&mut self.items).pop() {
            Some(_) => Ok(()),
            None => Err(Error::EmptySequence),
        }
    }

    /// Insert a value at the specified index.
    pub fn insert(&mut self, index: i64, value: Value) -> (r: Result<(), Error>)
        requires
            old(self)@.len() < i64::MAX,
        ensures
            ({
                let p = resolve(index as int, old(self)@.len() as int);
                &&& (0 <= p <= old(self)@.len()) ==> r == Ok::<(), Error>(()) && final(self)@
                    == old(self)@.insert(p, value)
                &&& !(0 <= p <= old(self)@.len()) ==> r == Err::<(), Error>(
                    out_of_bounds_spec(index, old(self)@.len() as i64),
                ) && final(self)@ == old(self)@
            }),
    {
        let len = self.len();
        match self.locate(index) {
            Some(p) => {
                if p <= self.items.len() as u64 {
                    unique_mut(&mut self.items).insert(p as usize, value);
                    return Ok(());
                }
            },
            None => {},
        }
        Err(out_of_bounds(index, len))
    }

    /// Remove the value at the specified index.
    pub fn remove(&mut self, index: i64) -> (r: Result<(), Error>)
        requires
            old(self)@.len() <= i64::MAX,
        ensures
            ({
                let p = resolve(index as int, old(self)@.len() as int);
                &&& (0 <= p < old(self)@.len()) ==> r == Ok::<(), Error>(()) && final(self)@
                    == old(self)@.remove(p)
                &&& !(0 <= p < old(self)@.len()) ==> r == Err::<(), Error>(
                    out_of_bounds_spec(index, old(self)@.len() as i64),
                ) && final(self)@ == old(self)@
            }),
    {
        let len = self.len();
        match self.locate(index) {
            Some(p) => {
                if p < self.items.len() as u64 {
                    unique_mut(&mut self.items).remove(p as usize);
                    return Ok(());
                }
            },
            None => {},
        }
        Err(out_of_bounds(index, len))
    }

    /// Whether the array contains a specific value.
    pub fn contains(&self, value: &Value) -> (r: bool)
        ensures
            is_plain(*value) ==> (r == exists|k: int|
                0 <= k < self@.len() && plain_match(*value, #[trigger] self@[k])),
            r ==> exists|k: int| 0 <= k < self@.len() && same_value(*value, #[trigger] self@[k]),
            no_funcs(*value) ==> (r == exists|k: int|
                0 <= k < self@.len() && same_value(*value, #[trigger] self@[k])),
    {
        let mut i: usize = 0;
        while i < self.items.len()
            invariant
                i <= self@.len(),
                is_plain(*value) ==> forall|k: int|
                    0 <= k < i ==> !plain_match(*value, #[trigger] self@[k]),
                no_funcs(*value) ==> forall|k: int|
                    0 <= k < i ==> !same_value(*value, #[trigger] self@[k]),
            decreases self@.len() - i,
        {
            if value.equals(&self.items[i]) {
                return true;
            }
            i = i + 1;
        }
        false
    }

    /// Extract a contiguous subregion of the array. An end before the start
    /// gives an empty array.
    pub fn slice(&self, start: i64, end: Option<i64>) -> (r: Result<Array, Error>)
        requires
            self@.len() <= i64::MAX,
        ensures
            ({
                let len = self@.len() as int;
                let s = resolve(start as int, len);
                let e0: i64 = match end {
                    Some(e) => e,
                    None => len as i64,
                };
                let e = resolve(e0 as int, len);
                &&& !(0 <= s <= len) ==> r == Err::<Array, Error>(
                    out_of_bounds_spec(start, len as i64),
                )
                &&& (0 <= s <= len && !(0 <= e <= len)) ==> r == Err::<Array, Error>(
                    out_of_bounds_spec(e0, len as i64),
                )
                &&& (0 <= s <= len && 0 <= e <= len) ==> (r matches Ok(a) && a@ == self@.subrange(
                    s,
                    if e < s {
                        s
                    } else {
                        e
                    },
                ))
            }),
    {
        let len = self.len();
        let s = match self.locate(start) {
            Some(s) => {
                if s > self.items.len() as u64 {
                    return Err(out_of_bounds(start, len));
                }
                s as usize
            },
            None => {
                return Err(out_of_bounds(start, len));
            },
        };
        let e0 = match end {
            Some(e) => e,
            None => len,
        };
        let e = match self.locate(e0) {
            Some(e) => {
                if e > self.items.len() as u64 {
                    return Err(out_of_bounds(e0, len));
                }
                let e = e as usize;
                if e < s {
                    s
                } else {
                    e
                }
            },
            None => {
                return Err(out_of_bounds(e0, len));
            },
        };
        let mut out: Vec<Value> = Vec::new();
        let mut i: usize = s;
        while i < e
            invariant
                s <= i <= e <= self@.len(),
                out@ == self@.subrange(s as int, i as int),
            decreases e - i,
        {
            out.push(self.items[i].copy());
            assert(self@.subrange(s as int, i + 1) == self@.subrange(s as int, i as int).push(
                self@[i as int],
            ));
            i = i + 1;
        }
        Ok(Array { items: Rc::new(out) })
    }

    /// Another handle to the same storage.
    pub fn copy(&self) -> (r: Array)
        ensures
            r == *self,
    {
        Array { items: Rc::clone(&self.items) }
    }

    /// Whether two arrays hold equal values, position by position.
    pub fn equals(&self, other: &Array) -> (r: bool)
        ensures
            r ==> same_value(Value::Array(*self), Value::Array(*other)),
            no_funcs(Value::Array(*self)) ==> (r == same_value(Value::Array(*self), Value::Array(*other))),
        decreases self,
    {
        if self.items.len() != other.items.len() {
            return false;
        }
        let mut i: usize = 0;
        while i < self.items.len()
            invariant
                i <= self.items@.len(),
                self.items@.len() == other.items@.len(),
                forall|k: int| 0 <= k < i ==> same_value(self@[k], #[trigger] other@[k]),
            decreases self.items@.len() - i,
        {
            proof {
                assert(decreases_to!(self => *self.items));
            }
            if !self.items[i].equals(&other.items[i]) {
                return false;
            }
            i = i + 1;
        }
        true
    }

    /// Transform each item with a function. A function of exactly two
    /// positional parameters receives the index too.
    pub fn map(&self, vm: &mut Machine, f: &Func, span: Span) -> (r: Result<Array, Diag>)
        requires
            self@.len() <= i64::MAX,
        ensures
            keeps(*old(vm), *final(vm)),
            r matches Ok(a) ==> a@.len() == self@.len() && forall|k: int|
                0 <= k < a@.len() ==> call_outcome(
                    *f,
                    old(vm).depth as nat,
                    span,
                    map_args(self@, k, span, takes_two(*f)),
                    Ok(#[trigger] a@[k]),
                ),
            r matches Err(e) ==> exists|k: int|
                0 <= k < self@.len() && call_outcome(
                    *f,
                    old(vm).depth as nat,
                    span,
                    #[trigger] map_args(self@, k, span, takes_two(*f)),
                    Err(e),
                ) && forall|j: int|
                    0 <= j < k ==> succeeds(
                        *f,
                        old(vm).depth as nat,
                        span,
                        #[trigger] map_args(self@, j, span, takes_two(*f)),
                    ),
            self@.len() == 0 ==> (r matches Ok(a) && a@.len() == 0),
    {
        let enumerate = match f.argc() {
            Some(n) => n == 2,
            None => false,
        };
        let mut out: Vec<Value> = Vec::new();
        let mut i: usize = 0;
        proof {
            lemma_keeps_refl(*vm);
        }
        while i < self.items.len()
            invariant
                i <= self@.len() <= i64::MAX,
                out@.len() == i,
                enumerate == takes_two(*f),
                forall|k: int|
                    0 <= k < i ==> call_outcome(
                        *f,
                        old(vm).depth as nat,
                        span,
                        map_args(self@, k, span, enumerate),
                        Ok(#[trigger] out@[k]),
                    ),
                keeps(*old(vm), *vm),
            decreases self@.len() - i,
        {
            let mut args = Args::new(span);
            if enumerate {
                args.push(span, Value::Int(i as i64));
            }
            args.push(span, self.items[i].copy());
            assert(args.items@ == map_args(self@, i as int, span, enumerate));
            let ghost before = *vm;
            match f.call(vm, args) {
                Ok(v) => {
                    out.push(v);
                },
                Err(e) => {
                    proof {
                        lemma_keeps_trans(*old(vm), before, *vm);
                        assert(call_outcome(
                            *f,
                            old(vm).depth as nat,
                            span,
                            map_args(self@, i as int, span, enumerate),
                            Err(e),
                        ));
                        assert forall|j: int| 0 <= j < i implies succeeds(
                            *f,
                            old(vm).depth as nat,
                            span,
                            #[trigger] map_args(self@, j, span, enumerate),
                        ) by {
                            assert(call_outcome(
                                *f,
                                old(vm).depth as nat,
                                span,
                                map_args(self@, j, span, enumerate),
                                Ok(out@[j]),
                            ));
                        }
                    }
                    return Err(e);
                },
            }
            proof {
                lemma_keeps_trans(*old(vm), before, *vm);
            }
            i = i + 1;
        }
        Ok(Array { items: Rc::new(out) })
    }

    /// The items for which the function returns true, in order.
    pub fn filter(&self, vm: &mut Machine, f: &Func, span: Span) -> (r: Result<Array, Diag>)
        ensures
            keeps(*old(vm), *final(vm)),
            r matches Ok(a) ==> exists|bs: Seq<bool>|
                bs.len() == self@.len() && a@ == kept(self@, bs, self@.len() as int) && forall|k: int|
                    0 <= k < self@.len() ==> target_outcome(
                        Target::Func(*f, span),
                        old(vm).depth as nat,
                        self@[k],
                        Ok(#[trigger] bs[k]),
                    ),
            r matches Err(e) ==> exists|k: int|
                0 <= k < self@.len() && target_outcome(
                    Target::Func(*f, span),
                    old(vm).depth as nat,
                    #[trigger] self@[k],
                    Err(e),
                ) && forall|j: int|
                    0 <= j < k ==> answers(
                        Target::Func(*f, span),
                        old(vm).depth as nat,
                        #[trigger] self@[j],
                    ),
            self@.len() == 0 ==> (r matches Ok(a) && a@.len() == 0),
    {
        let t = Target::Func(f.share(), span);
        let mut kept_items: Vec<Value> = Vec::new();
        let mut i: usize = 0;
        let ghost mut bs: Seq<bool> = Seq::empty();
        proof {
            lemma_keeps_refl(*vm);
        }
        while i < self.items.len()
            invariant
                i <= self@.len(),
                t == Target::Func(*f, span),
                bs.len() == i,
                kept_items@ == kept(self@, bs, i as int),
                forall|k: int|
                    0 <= k < i ==> target_outcome(t, old(vm).depth as nat, self@[k], Ok(#[trigger] bs[k])),
                keeps(*old(vm), *vm),
            decreases self@.len() - i,
        {
            let ghost before = *vm;
            let m = t.matches(vm, &self.items[i]);
            proof {
                lemma_keeps_trans(*old(vm), before, *vm);
            }
            match m {
                Ok(b) => {
                    if b {
                        kept_items.push(self.items[i].copy());
                    }
                    proof {
                        let bs2 = bs.push(b);
                        lemma_kept_prefix(self@, bs, bs2, i as int);
                        bs = bs2;
                    }
                },
                Err(e) => {
                    proof {
                        assert forall|j: int| 0 <= j < i implies answers(
                            t,
                            old(vm).depth as nat,
                            #[trigger] self@[j],
                        ) by {
                            assert(target_outcome(t, old(vm).depth as nat, self@[j], Ok(bs[j])));
                        }
                    }
                    return Err(e);
                },
            }
            i = i + 1;
        }
        Ok(Array { items: Rc::new(kept_items) })
    }

    /// The index of the first item that matches the target, if any.
    pub fn find(&self, vm: &mut Machine, target: Target) -> (r: Result<Option<i64>, Diag>)
        requires
            self@.len() <= i64::MAX,
        ensures
            keeps(*old(vm), *final(vm)),
            r matches Ok(Some(k)) ==> 0 <= k < self@.len(),
            self@.len() == 0 ==> r == Ok::<Option<i64>, Diag>(None),
            r matches Ok(Some(k)) ==> target_outcome(target, old(vm).depth as nat, self@[k as int], Ok(true))
                && forall|j: int|
                0 <= j < k ==> target_outcome(target, old(vm).depth as nat, #[trigger] self@[j], Ok(false)),
            r matches Ok(None) ==> forall|j: int|
                0 <= j < self@.len() ==> target_outcome(
                    target,
                    old(vm).depth as nat,
                    #[trigger] self@[j],
                    Ok(false),
                ),
            r matches Err(e) ==> exists|k: int|
                0 <= k < self@.len() && target_outcome(
                    target,
                    old(vm).depth as nat,
                    #[trigger] self@[k],
                    Err(e),
                ) && forall|j: int|
                    0 <= j < k ==> target_outcome(target, old(vm).depth as nat, #[trigger] self@[j], Ok(false)),
            (target is Value && is_plain(target->Value_0)) ==> (r matches Ok(o) && match o {
                Some(k) => first_plain_match(self@, target->Value_0, k as int),
                None => forall|j: int|
                    0 <= j < self@.len() ==> !plain_match(target->Value_0, #[trigger] self@[j]),
            }),
    {
        let mut i: usize = 0;
        proof {
            lemma_keeps_refl(*vm);
        }
        while i < self.items.len()
            invariant
                i <= self@.len() <= i64::MAX,
                keeps(*old(vm), *vm),
                forall|j: int|
                    0 <= j < i ==> target_outcome(target, old(vm).depth as nat, #[trigger] self@[j], Ok(false)),
                (target is Value && is_plain(target->Value_0)) ==> forall|j: int|
                    0 <= j < i ==> !plain_match(target->Value_0, #[trigger] self@[j]),
            decreases self@.len() - i,
        {
            let ghost before = *vm;
            let m = target.matches(vm, &self.items[i]);
            proof {
                lemma_keeps_trans(*old(vm), before, *vm);
            }
            match m {
                Ok(true) => {
                    return Ok(Some(i as i64));
                },
                Ok(false) => {},
                Err(e) => {
                    return Err(e);
                },
            }
            i = i + 1;
        }
        Ok(None)
    }

    /// Iterate over references to the items.
    pub fn iter(&self) -> (r: std::slice::Iter<'_, Value>)
        ensures
            vstd::std_specs::slice::into_iter_elts(r) == self@,
    {
        self.items.as_slice().iter()
    }

    /// The items as a slice.
    pub fn as_slice(&self) -> (r: &[Value])
        ensures
            r@ == self@,
    {
        self.items.as_slice()
    }

    /// A sorted version of this array, or the first adjacent pair that has
    /// no order between them.
    pub fn sorted(&self) -> (r: Result<Array, Error>)
        ensures
            all_comparable(self@) ==> (r matches Ok(a) && sorts_to(self@, a@)),
            forall|i: int|
                is_first_incomparable(self@, i) ==> r == Err::<Array, Error>(
                    Error::IncomparableValues { left: kind_of(self@[i]), right: kind_of(self@[i + 1]) },
                ),
    {
        let n = self.items.len();
        let mut k: usize = 0;
        while n > 0 && k < n - 1
            invariant
                n == self@.len(),
                k <= n,
                forall|j: int| 0 <= j < k && j + 1 < n ==> comparable(#[trigger] self@[j], self@[j + 1]),
            decreases n - k,
        {
            let a = &self.items[k];
            let b = &self.items[k + 1];
            if !(a.is_int() && b.is_int()) {
                let l = a.kind();
                let rk = b.kind();
                assert(is_first_incomparable(self@, k as int));
                return Err(Error::IncomparableValues { left: l, right: rk });
            }
            k = k + 1;
        }
        assert(all_comparable(self@));
        if n <= 1 {
            proof {
                assert forall|i: int| !is_first_incomparable(self@, i) by {}
            }
            return Ok(self.copy());
        }
        proof {
            assert forall|j: int| 0 <= j < n implies #[trigger] self@[j] is Int by {
                if j + 1 < n {
                    assert(comparable(self@[j], self@[j + 1]));
                } else {
                    assert(comparable(self@[j - 1], self@[j]));
                }
            }
        }
        let mut out: Vec<Value> = Vec::new();
        let mut i: usize = 0;
        assert(self@.take(0) == Seq::<Value>::empty());
        assert(out@ == Seq::<Value>::empty());
        while i < n
            invariant
                n == self@.len(),
                i <= n,
                forall|j: int| 0 <= j < n ==> #[trigger] self@[j] is Int,
                forall|j: int| 0 <= j < out@.len() ==> #[trigger] out@[j] is Int,
                ascending(out@),
                out@.to_multiset() == self@.take(i as int).to_multiset(),
                ascending(self@) ==> out@ == self@.take(i as int),
            decreases n - i,
        {
            let x = self.items[i].copy();
            let key = x.int_or_zero();
            let mut j: usize = out.len();
            while j > 0 && out[j - 1].int_or_zero() > key
                invariant
                    j <= out@.len(),
                    forall|m: int| j <= m < out@.len() ==> int_of(#[trigger] out@[m]) > key,
                decreases j,
            {
                j = j - 1;
            }
            let ghost before = out@;
            proof {
                assert(ascending(self@) ==> j == out@.len()) by {
                    if ascending(self@) && j < out@.len() {
                        assert(out@[j as int] == self@[j as int]);
                        assert(int_of(self@[j as int]) <= int_of(self@[i as int]));
                    }
                }
            }
            out.insert(j, x);
            proof {
                let t = self@.take(i as int + 1);
                assert(t == self@.take(i as int).push(self@[i as int]));
                assert(before == before.take(j as int) + before.skip(j as int));
                assert(out@ == before.take(j as int) + seq![x] + before.skip(j as int));
                vstd::seq_lib::lemma_multiset_commutative(before.take(j as int), before.skip(j as int));
                vstd::seq_lib::lemma_multiset_commutative(before.take(j as int) + seq![x], before.skip(j as int));
                vstd::seq_lib::lemma_multiset_commutative(before.take(j as int), seq![x]);
                assert(seq![x].to_multiset() =~= Multiset::<Value>::empty().insert(x)) by {
                    assert(seq![x] == Seq::<Value>::empty().push(x));
                    assert(Seq::<Value>::empty().to_multiset() =~= Multiset::<Value>::empty());
                }
                assert(out@.to_multiset() =~= before.to_multiset().insert(x));
                assert(t.to_multiset() =~= self@.take(i as int).to_multiset().insert(x));
                assert(out@.to_multiset() == t.to_multiset());
                assert(ascending(out@)) by {
                    assert forall|a: int, b: int| 0 <= a <= b < out@.len() implies int_of(
                        #[trigger] out@[a],
                    ) <= int_of(#[trigger] out@[b]) by {
                        if j > 0 && a < j && b >= j {
                            assert(int_of(before[a]) <= int_of(before[j - 1]));
                        }
                    }
                }
                if ascending(self@) {
                    assert(out@ == t);
                }
            }
            i = i + 1;
        }
        assert(self@.take(n as int) == self@);
        proof {
            assert forall|i: int| !is_first_incomparable(self@, i) by {}
            assert forall|k: int| 0 <= k < out@.len() - 1 implies comparable(#[trigger] out@[k], out@[k + 1]) by {
                assert(out@[k] is Int && out@[k + 1] is Int);
            }
        }
        Ok(Array { items: Rc::new(out) })
    }

    /// This array's items repeated `n` times.
    pub fn repeat(&self, n: i64) -> (r: Result<Array, Error>)
        ensures
            (n < 0 || self@.len() * n > usize::MAX) ==> r == Err::<Array, Error>(
                Error::RepeatOverflow { n },
            ),
            (n >= 0 && self@.len() * n <= usize::MAX) ==> (r matches Ok(a) && a@.len()
                == self@.len() * n && forall|k: int|
                0 <= k < a@.len() ==> #[trigger] a@[k] == self@[k % self@.len() as int]),
    {
        if n < 0 {
            return Err(Error::RepeatOverflow { n });
        }
        let len = self.items.len();
        assert((len as u128) * (n as u128) <= u128::MAX) by (nonlinear_arith)
            requires
                len <= u64::MAX,
                0 <= n <= i64::MAX,
        ;
        let wide: u128 = (len as u128) * (n as u128);
        if wide > usize::MAX as u128 {
            return Err(Error::RepeatOverflow { n });
        }
        let count = wide as usize;
        let mut out: Vec<Value> = Vec::new();
        let mut k: usize = 0;
        while k < count
            invariant
                k <= count,
                count == self@.len() * n,
                n >= 0,
                len == self@.len(),
                out@.len() == k,
                forall|m: int| 0 <= m < k ==> #[trigger] out@[m] == self@[m % len as int],
            decreases count - k,
        {
            assert(len > 0) by (nonlinear_arith)
                requires
                    k < count,
                    count == len * n,
                    n >= 0,
            ;
            out.push(self.items[k % len].copy());
            k = k + 1;
        }
        Ok(Array { items: Rc::new(out) })
    }

    /// Join all values in the array, with a separator between neighbours and
    /// optionally another one before the last item.
    pub fn join(&self, sep: Option<Value>, last: Option<Value>) -> (r: Result<Value, Error>)
        ensures
            all_text(join_operands(self@, sep_or_nil(sep), last, self@.len() as int)) ==> (r matches Ok(
                v,
            ) && is_text(v) && text_of(v) == text_concat(
                join_operands(self@, sep_or_nil(sep), last, self@.len() as int),
            ) && (v is Nil <==> all_nil(
                join_operands(self@, sep_or_nil(sep), last, self@.len() as int),
            ))),
            forall|j: int|
                first_non_text(join_operands(self@, sep_or_nil(sep), last, self@.len() as int), j)
                    ==> r == Err::<Value, Error>(
                    join_error(join_operands(self@, sep_or_nil(sep), last, self@.len() as int), j),
                ),
    {
        let len = self.items.len();
        let ghost sv = sep_or_nil(sep);
        let sep_value = match &sep {
            Some(v) => v.copy(),
            None => Value::Nil,
        };
        let ghost full = join_operands(self@, sv, last, len as int);
        let mut result = Value::Nil;
        let mut i: usize = 0;
        while i < len
            invariant
                len == self@.len(),
                i <= len,
                sep_value == sv,
                full == join_operands(self@, sv, last, len as int),
                sv == sep_or_nil(sep),
                all_text(join_operands(self@, sv, last, i as int)),
                is_text(result),
                text_of(result) == text_concat(join_operands(self@, sv, last, i as int)),
                (result is Nil) == all_nil(join_operands(self@, sv, last, i as int)),
            decreases len - i,
        {
            proof {
                lemma_operands_prefix(self@, sv, last, i as int, len as int);
                lemma_operands_prefix(self@, sv, last, i as int + 1, len as int);
                lemma_operands_len(self@, sv, last, len as int);
                lemma_operands_len(self@, sv, last, i as int);
                lemma_operands_len(self@, sv, last, i as int + 1);
            }
            let ghost prev = join_operands(self@, sv, last, i as int);
            let ghost next = join_operands(self@, sv, last, i as int + 1);
            if i > 0 {
                let g = if i + 1 == len && last.is_some() {
                    match &last {
                        Some(v) => v.copy(),
                        None => Value::Nil,
                    }
                } else {
                    sep_value.copy()
                };
                assert(g == gap(len as int, i as int, sv, last));
                assert(next[prev.len() as int] == g);
                let ghost before_gap = result;
                match join(result, g) {
                    Ok(v) => {
                        result = v;
                        assert(text_of(result) == text_of(before_gap) + text_of(g));
                        assert((result is Nil) == all_nil(prev.push(g))) by {
                            if all_nil(prev.push(g)) {
                                assert forall|k: int| 0 <= k < prev.len() implies #[trigger] prev[k] is Nil by {
                                    assert(prev.push(g)[k] == prev[k]);
                                }
                                assert(prev.push(g)[prev.len() as int] == g);
                            }
                        }
                    },
                    Err(e) => {
                        proof {
                            assert(full[prev.len() as int] == next[prev.len() as int]);
                            assert(full.take(prev.len() as int) == prev);
                            assert forall|k: int| 0 <= k < prev.len() implies is_text(#[trigger] full[k]) by {
                                assert(full.take(prev.len() as int)[k] == full[k]);
                            }
                            lemma_first_non_text(full, prev.len() as int);
                        }
                        return Err(e);
                    },
                }
            }
            let ghost acc = result;
            let item = self.items[i].copy();
            match join(result, item) {
                Ok(v) => {
                    result = v;
                },
                Err(e) => {
                    proof {
                        assert(full[next.len() - 1] == next[next.len() - 1]);
                        assert(full.take(next.len() - 1) == next.drop_last());
                        if i == 0 {
                            assert(next == seq![self@[0]]);
                            assert(next.drop_last() == Seq::<Value>::empty());
                        } else {
                            let g = gap(len as int, i as int, sv, last);
                            assert(next == prev + seq![g, self@[i as int]]);
                            assert(next.drop_last() == prev.push(g));
                            assert(is_text(g));
                            assert forall|k: int| 0 <= k < prev.len() + 1 implies is_text(#[trigger] prev.push(g)[k]) by {
                                if k < prev.len() {
                                    assert(prev.push(g)[k] == prev[k]);
                                }
                            }
                        }
                        assert forall|k: int| 0 <= k < next.len() - 1 implies is_text(#[trigger] full[k]) by {
                            assert(full.take(next.len() - 1)[k] == full[k]);
                            assert(is_text(next.drop_last()[k]));
                        }
                        lemma_first_non_text(full, next.len() - 1);
                    }
                    return Err(e);
                },
            }
            proof {
                if i == 0 {
                    assert(next == seq![self@[0]]);
                    assert(next.drop_last() == Seq::<Value>::empty());
                } else {
                    let g = gap(len as int, i as int, sv, last);
                    assert(next == prev + seq![g, self@[i as int]]);
                    assert(next.drop_last() == prev.push(g));
                    assert(prev.push(g).drop_last() == prev);
                    assert(text_concat(prev.push(g)) == text_concat(prev) + text_of(g));
                }
                assert(text_of(result) == text_of(acc) + text_of(self@[i as int]));
                assert(text_concat(next) == text_concat(next.drop_last()) + text_of(self@[i as int]));
                assert forall|k: int| 0 <= k < next.len() implies is_text(#[trigger] next[k]) by {
                    if k < prev.len() {
                        assert(next[k] == prev[k]);
                    }
                }
                assert((result is Nil) == all_nil(next)) by {
                    let d = next.drop_last();
                    assert(next == d.push(self@[i as int]));
                    if all_nil(next) {
                        assert forall|k: int| 0 <= k < d.len() implies #[trigger] d[k] is Nil by {
                            assert(next[k] == d[k]);
                        }
                        assert(next[d.len() as int] == self@[i as int]);
                    }
                    if i > 0 {
                        let g = gap(len as int, i as int, sv, last);
                        assert(d == prev.push(g));
                    } else {
                        assert(d == Seq::<Value>::empty());
                    }
                }
            }
            i = i + 1;
        }
        assert(join_operands(self@, sv, last, i as int) == full);
        assert forall|j: int| !first_non_text(full, j) by {}
        Ok(result)
    }

    /// A new array with all items from this and nested arrays, depth first.
    pub fn flatten(&self) -> (r: Array)
        ensures
            r@ == Self::flat_upto(self@, self@.len() as int),
        decreases self,
    {
        let mut flat: Vec<Value> = Vec::new();
        let mut i: usize = 0;
        while i < self.items.len()
            invariant
                i <= self.items@.len(),
                flat@ == Self::flat_upto(self.items@, i as int),
            decreases self.items@.len() - i,
        {
            proof {
                assert(decreases_to!(self => *self.items));
            }
            match &self.items[i] {
                Value::Array(nested) => {
                    let inner = nested.flatten();
                    let mut k: usize = 0;
                    while k < inner.items.len()
                        invariant
                            k <= inner@.len(),
                            flat@ == Self::flat_upto(self@, i as int) + inner@.take(k as int),
                        decreases inner@.len() - k,
                    {
                        flat.push(inner.items[k].copy());
                        assert(inner@.take(k + 1) == inner@.take(k as int).push(inner@[k as int]));
                        k = k + 1;
                    }
                    assert(inner@.take(k as int) == inner@);
                },
                v => {
                    flat.push(v.copy());
                },
            }
            i = i + 1;
        }
        Array { items: Rc::new(flat) }
    }
}

impl Default for Array {
    fn default() -> (r: Array)
        ensures
            r@ == Seq::<Value>::empty(),
    {
        Array::new()
    }
}

impl Clone for Array {
    fn clone(&self) -> (r: Array)
        ensures
            r == *self,
    {
        self.copy()
    }
}

/// A non-negative index and the negative index `len` below it address the
/// same item.
pub proof fn law_negative_alias(s: Array, i: int)
    requires
        0 <= i < s@.len(),
    ensures
        resolve(i - s@.len(), s@.len() as int) == resolve(i, s@.len() as int),
        0 <= resolve(i - s@.len(), s@.len() as int) < s@.len(),
{
}

/// A slice whose end resolves before its start is empty, not an error.
pub proof fn law_slice_backwards(s: Array, start: int, end: int)
    requires
        0 <= resolve(start, s@.len() as int) <= s@.len(),
        0 <= resolve(end, s@.len() as int) <= s@.len(),
        resolve(end, s@.len() as int) < resolve(start, s@.len() as int),
    ensures
        ({
            let a = resolve(start, s@.len() as int);
            let b = resolve(end, s@.len() as int);
            s@.subrange(a, if b < a { a } else { b }) == Seq::<Value>::empty()
        }),
{
    let a = resolve(start, s@.len() as int);
    assert(s@.subrange(a, a) == Seq::<Value>::empty());
}

/// Sorting is idempotent and keeps the items: sorting the result of a sort
/// gives it back.
pub proof fn law_sorted_idempotent(s: Seq<Value>, t: Seq<Value>, u: Seq<Value>)
    requires
        sorts_to(s, t),
        sorts_to(t, u),
    ensures
        u == t,
        u.to_multiset() == s.to_multiset(),
{
}

/// Joining three items folds them with the separator in both gaps, or with
/// the last separator in the final gap when one is given.
pub proof fn law_join_three(a: Value, b: Value, c: Value, sep: Value, last: Option<Value>)
    ensures
        join_operands(seq![a, b, c], sep, last, 3) == match last {
            Some(l) => seq![a, sep, b, l, c],
            None => seq![a, sep, b, sep, c],
        },
{
    let s = seq![a, b, c];
    assert(join_operands(s, sep, last, 1) == seq![a]);
    assert(join_operands(s, sep, last, 2) == seq![a, sep, b]);
}

/// A flattened array holds no arrays.
pub proof fn law_flat_has_no_arrays(s: Seq<Value>, n: int)
    ensures
        forall|k: int|
            0 <= k < Array::flat_upto(s, n).len() ==> !(#[trigger] Array::flat_upto(s, n)[k] is Array),
    decreases s, n,
{
    if !(n <= 0 || n > s.len()) {
        law_flat_has_no_arrays(s, n - 1);
        match s[n - 1] {
            Value::Array(a) => {
                law_flat_has_no_arrays(a@, a@.len() as int);
            },
            _ => {},
        }
        let p = Array::flat_upto(s, n - 1);
        let t = Array::flat_upto(s, n);
        assert forall|k: int| 0 <= k < t.len() implies !(#[trigger] t[k] is Array) by {
            if k < p.len() {
                assert(t[k] == p[k]);
            }
        }
    }
}

/// Flattening items that hold no arrays gives them back; so flattening a
/// flattened array changes nothing.
pub proof fn law_flat_of_plain(s: Seq<Value>, n: int)
    requires
        0 <= n <= s.len(),
        forall|k: int| 0 <= k < s.len() ==> !(#[trigger] s[k] is Array),
    ensures
        Array::flat_upto(s, n) == s.take(n),
    decreases n,
{
    if n > 0 {
        law_flat_of_plain(s, n - 1);
        assert(s.take(n) == s.take(n - 1).push(s[n - 1]));
    } else {
        assert(s.take(0) == Seq::<Value>::empty());
    }
}

/// Joining three text items: the text is theirs with the separator between
/// the first two and the last separator, if given, between the last two.
pub proof fn law_join_three_text(a: Value, b: Value, c: Value, sep: Value, last: Option<Value>)
    ensures
        text_concat(join_operands(seq![a, b, c], sep, last, 3)) == text_of(a) + text_of(sep)
            + text_of(b) + text_of(
            match last {
                Some(l) => l,
                None => sep,
            },
        ) + text_of(c),
{
    law_join_three(a, b, c, sep, last);
    let g = match last {
        Some(l) => l,
        None => sep,
    };
    let ops = seq![a, sep, b, g, c];
    assert(join_operands(seq![a, b, c], sep, last, 3) == ops);
    assert(ops.drop_last() == seq![a, sep, b, g]);
    assert(seq![a, sep, b, g].drop_last() == seq![a, sep, b]);
    assert(seq![a, sep, b].drop_last() == seq![a, sep]);
    assert(seq![a, sep].drop_last() == seq![a]);
    assert(seq![a].drop_last() == Seq::<Value>::empty());
    reveal_with_fuel(text_concat, 6);
    assert(text_concat(seq![a]) == text_of(a));
}

/// Sorting is stable: items that compare equal are the same value, so no
/// two of them can change places observably.
pub proof fn law_equal_keys_identical(x: Value, y: Value)
    requires
        comparable(x, y),
        int_of(x) == int_of(y),
    ensures
        x == y,
{
}

proof fn lemma_operands_len(s: Seq<Value>, sep: Value, last: Option<Value>, n: int)
    requires
        0 <= n <= s.len(),
    ensures
        join_operands(s, sep, last, n).len() == if n == 0 {
            0
        } else {
            2 * n - 1
        },
    decreases n,
{
    if n > 1 {
        lemma_operands_len(s, sep, last, n - 1);
    }
}

/// Joining fewer items folds a prefix of the operands of joining more.
proof fn lemma_operands_prefix(s: Seq<Value>, sep: Value, last: Option<Value>, n: int, m: int)
    requires
        0 <= n <= m <= s.len(),
    ensures
        join_operands(s, sep, last, n) == join_operands(s, sep, last, m).take(
            join_operands(s, sep, last, n).len() as int,
        ),
    decreases m - n,
{
    let a = join_operands(s, sep, last, n);
    let c = join_operands(s, sep, last, m);
    if n == m {
        assert(a == a.take(a.len() as int));
    } else {
        lemma_operands_prefix(s, sep, last, n, m - 1);
        lemma_operands_len(s, sep, last, n);
        lemma_operands_len(s, sep, last, m - 1);
        let b = join_operands(s, sep, last, m - 1);
        if m == 1 {
            assert(a.len() == 0);
        } else {
            assert(c == b + seq![gap(s.len() as int, m - 1, sep, last), s[m - 1]]);
            assert(c.take(b.len() as int) == b);
        }
    }
}

pub open spec fn out_of_bounds_spec(index: i64, len: i64) -> Error {
    Error::OutOfBounds { index, len }
}

/// The error for an index that does not resolve into an array.
pub fn out_of_bounds(index: i64, len: i64) -> (r: Error)
    ensures
        r == out_of_bounds_spec(index, len),
{
    Error::OutOfBounds { index, len }
}

/// Something that can be found.
pub enum Target {
    /// A bare value.
    Value(Value),
    /// A function that returns a boolean.
    Func(Func, Span),
}

/// What a call leaves of the machine: route, scope, depth and pending
/// control flow unchanged, dependencies only extended.
pub open spec fn keeps(pre: Machine, post: Machine) -> bool {
    &&& post.route@ == pre.route@
    &&& post.scope.bindings@ == pre.scope.bindings@
    &&& post.depth == pre.depth
    &&& post.flow == pre.flow
    &&& post.deps@.len() >= pre.deps@.len()
    &&& post.deps@.take(pre.deps@.len() as int) == pre.deps@
}

proof fn lemma_kept_prefix(s: Seq<Value>, bs: Seq<bool>, bs2: Seq<bool>, n: int)
    requires
        0 <= n <= bs.len(),
        n <= bs2.len(),
        forall|j: int| 0 <= j < n ==> bs[j] == bs2[j],
    ensures
        kept(s, bs, n) == kept(s, bs2, n),
    decreases n,
{
    if n > 0 {
        lemma_kept_prefix(s, bs, bs2, n - 1);
    }
}

proof fn lemma_keeps_refl(a: Machine)
    ensures
        keeps(a, a),
{
    assert(a.deps@.take(a.deps@.len() as int) == a.deps@);
}

proof fn lemma_keeps_trans(a: Machine, b: Machine, c: Machine)
    requires
        keeps(a, b),
        keeps(b, c),
    ensures
        keeps(a, c),
{
    assert(c.deps@.take(a.deps@.len() as int) == c.deps@.take(b.deps@.len() as int).take(
        a.deps@.len() as int,
    ));
}

/// Equality by content: arrays item by item, functions as the same
/// function.
pub open spec fn same_value(a: Value, b: Value) -> bool
    decreases a,
{
    match a {
        Value::Array(x) => match b {
            Value::Array(y) => x@.len() == y@.len() && forall|i: int|
                0 <= i < x@.len() ==> same_value(x@[i], #[trigger] y@[i]),
            _ => false,
        },
        Value::Func(f) => b == Value::Func(f),
        _ => plain_match(a, b),
    }
}

/// Whether a value holds no function, at any depth.
pub open spec fn no_funcs(a: Value) -> bool
    decreases a,
{
    match a {
        Value::Array(x) => forall|i: int| 0 <= i < x@.len() ==> no_funcs(#[trigger] x@[i]),
        Value::Func(_) => false,
        _ => true,
    }
}

/// A positional argument.
pub open spec fn item_arg(span: Span, v: Value) -> Arg {
    Arg { span, name: None, value: v }
}

/// The arguments `map` passes for item `k`: the index too when the function
/// takes exactly two positional parameters.
pub open spec fn map_args(s: Seq<Value>, k: int, span: Span, enumerate: bool) -> Seq<Arg> {
    if enumerate {
        seq![item_arg(span, Value::Int(k as i64)), item_arg(span, s[k])]
    } else {
        seq![item_arg(span, s[k])]
    }
}

/// Whether a function takes exactly two positional parameters.
pub open spec fn takes_two(f: Func) -> bool {
    f.argc_of() == Some(2nat)
}

/// A predicate's answer from a call's outcome: a boolean, or the type
/// mismatch at the span, or the call's own error.
pub open spec fn decide(cr: Result<Value, Diag>, span: Span) -> Result<bool, Diag> {
    match cr {
        Ok(Value::Bool(b)) => Ok(b),
        Ok(v) => Err(
            Diag { span, error: Error::TypeMismatch { expected: Kind::Bool, found: kind_of(v) } },
        ),
        Err(e) => Err(e),
    }
}

/// What matching an item against a target may give: for a plain value,
/// equality; for a function, its answer on the item.
pub open spec fn target_outcome(t: Target, depth: nat, other: Value, r: Result<bool, Diag>) -> bool {
    match t {
        Target::Value(v) => r matches Ok(b) && (is_plain(v) ==> b == plain_match(v, other)) && (b
            ==> same_value(v, other)) && (no_funcs(v) ==> b == same_value(v, other)),
        Target::Func(f, span) => exists|cr: Result<Value, Diag>|
            #[trigger] call_outcome(f, depth, span, seq![item_arg(span, other)], cr) && r == decide(
                cr,
                span,
            ),
    }
}

/// Matching an item against a target gives a boolean answer.
pub open spec fn answers(t: Target, depth: nat, other: Value) -> bool {
    exists|b: bool| #[trigger] target_outcome(t, depth, other, Ok(b))
}

/// The items of the first `n` whose flag is set, in order.
pub open spec fn kept(s: Seq<Value>, bs: Seq<bool>, n: int) -> Seq<Value>
    decreases n,
{
    if n <= 0 {
        Seq::empty()
    } else {
        kept(s, bs, n - 1) + if bs[n - 1] {
            seq![s[n - 1]]
        } else {
            Seq::empty()
        }
    }
}

/// The first position whose element equals the plain value, if any.
pub open spec fn first_plain_match(s: Seq<Value>, v: Value, k: int) -> bool {
    &&& 0 <= k < s.len()
    &&& plain_match(v, s[k])
    &&& forall|j: int| 0 <= j < k ==> !plain_match(v, #[trigger] s[j])
}

/// A boolean value, or the type mismatch at the span.
fn expect_bool(v: Value, span: Span) -> (r: Result<bool, Diag>)
    ensures
        r == decide(Ok(v), span),
        v matches Value::Bool(b) ==> r == Ok::<bool, Diag>(b),
        !(v is Bool) ==> r == Err::<bool, Diag>(
            Diag { span, error: Error::TypeMismatch { expected: Kind::Bool, found: kind_of(v) } },
        ),
{
    match v {
        Value::Bool(b) => Ok(b),
        other => {
            let k = other.kind();
            Err(Diag { span, error: Error::TypeMismatch { expected: Kind::Bool, found: k } })
        },
    }
}

impl Target {
    /// The target a value stands for: a function is a predicate, anything
    /// else is compared against.
    pub fn from_value(value: Value, span: Span) -> (r: Target)
        ensures
            value matches Value::Func(f) ==> r == Target::Func(f, span),
            !(value is Func) ==> r == Target::Value(value),
    {
        match value {
            Value::Func(f) => Target::Func(f, span),
            v => Target::Value(v),
        }
    }

    /// Whether the value is the search target: equal to the bare value, or
    /// one for which the function returns true.
    pub fn matches(&self, vm: &mut Machine, other: &Value) -> (r: Result<bool, Diag>)
        ensures
            keeps(*old(vm), *final(vm)),
            target_outcome(*self, old(vm).depth as nat, *other, r),
    {
        match self {
            Target::Value(v) => {
                proof {
                    lemma_keeps_refl(*vm);
                }
                Ok(v.equals(other))
            },
            Target::Func(f, span) => {
                let mut args = Args::new(*span);
                args.push(*span, other.copy());
                assert(args.items@ == seq![item_arg(*span, *other)]);
                let res = f.call(vm, args);
                let ghost cr = res;
                let r = match res {
                    Ok(v) => expect_bool(v, *span),
                    Err(e) => Err(e),
                };
                assert(call_outcome(*f, old(vm).depth as nat, *span, seq![item_arg(*span, *other)], cr)
                    && r == decide(cr, *span));
                r
            },
        }
    }
}

} // verus!
