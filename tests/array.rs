use std::collections::hash_map::DefaultHasher;
use std::hash::{Hash, Hasher};

use evalcore::{Array, Error, Kind, Value};

fn ints(v: &[i64]) -> Array {
    Array::from_vec(v.iter().map(|n| Value::Int(*n)).collect())
}

fn text(s: &str) -> Value {
    Value::Str(s.to_string())
}

#[test]
fn get_negative_index_aliases_positive() {
    let s = ints(&[10, 20, 30]);
    for i in 0..3i64 {
        assert_eq!(s.get(i).unwrap(), s.get(i - s.len()).unwrap());
    }
    assert_eq!(s.get(-1).unwrap(), &Value::Int(30));
}

#[test]
fn get_out_of_bounds_reports_index_and_len() {
    let s = ints(&[10, 20, 30]);
    assert_eq!(s.get(3), Err(Error::OutOfBounds { index: 3, len: 3 }));
    assert_eq!(s.get(-4), Err(Error::OutOfBounds { index: -4, len: 3 }));
}

#[test]
fn get_mut_changes_only_this_handle() {
    let s = ints(&[1, 2, 3]);
    let mut b = s.clone();
    *b.get_mut(-1).unwrap() = Value::Int(9);
    assert_eq!(b, ints(&[1, 2, 9]));
    assert_eq!(s, ints(&[1, 2, 3]));
    assert_eq!(b.get_mut(5).err(), Some(Error::OutOfBounds { index: 5, len: 3 }));
}

#[test]
fn slice_with_end_before_start_is_empty() {
    let s = ints(&[10, 20, 30]);
    assert_eq!(s.slice(2, Some(1)).unwrap(), Array::new());
    assert_eq!(s.slice(-1, Some(0)).unwrap(), Array::new());
}

#[test]
fn slice_ranges_and_errors() {
    let s = ints(&[10, 20, 30]);
    assert_eq!(s.slice(1, None).unwrap(), ints(&[20, 30]));
    assert_eq!(s.slice(0, Some(-1)).unwrap(), ints(&[10, 20]));
    assert_eq!(s.slice(3, None).unwrap(), Array::new());
    assert_eq!(s.slice(4, None), Err(Error::OutOfBounds { index: 4, len: 3 }));
    assert_eq!(s.slice(0, Some(5)), Err(Error::OutOfBounds { index: 5, len: 3 }));
    assert_eq!(s.slice(-4, None), Err(Error::OutOfBounds { index: -4, len: 3 }));
}

#[test]
fn mutating_a_clone_leaves_the_source() {
    let s = ints(&[1, 2]);
    let a = s.clone();
    let mut b = s.clone();
    b.push(Value::Int(3));
    assert_eq!(a, s);
    assert_eq!(s, ints(&[1, 2]));
    assert_eq!(b, ints(&[1, 2, 3]));
}

#[test]
fn push_pop_insert_remove() {
    let mut s = Array::new();
    assert!(s.is_empty());
    assert_eq!(s.pop(), Err(Error::EmptySequence));
    s.push(Value::Int(1));
    s.push(Value::Int(3));
    assert_eq!(s.insert(1, Value::Int(2)), Ok(()));
    assert_eq!(s.insert(3, Value::Int(4)), Ok(()));
    assert_eq!(s, ints(&[1, 2, 3, 4]));
    assert_eq!(s.insert(5, Value::Int(0)), Err(Error::OutOfBounds { index: 5, len: 4 }));
    assert_eq!(s.remove(-1), Ok(()));
    assert_eq!(s.remove(3), Err(Error::OutOfBounds { index: 3, len: 3 }));
    assert_eq!(s.pop(), Ok(()));
    assert_eq!(s, ints(&[1, 2]));
    assert_eq!(s.len(), 2);
}

#[test]
fn contains_compares_by_content() {
    let s = Array::from_vec(vec![Value::Int(1), text("a"), Value::Nil]);
    assert!(s.contains(&text("a")));
    assert!(s.contains(&Value::Nil));
    assert!(!s.contains(&Value::Int(2)));
    assert!(!s.contains(&Value::Bool(true)));
}

#[test]
fn sorted_orders_and_is_idempotent() {
    let s = ints(&[3, 1, 2, 1]);
    let once = s.sorted().unwrap();
    assert_eq!(once, ints(&[1, 1, 2, 3]));
    assert_eq!(once.sorted().unwrap(), once);
    assert_eq!(s, ints(&[3, 1, 2, 1]));
}

#[test]
fn sorted_reports_incomparable_pair() {
    let s = Array::from_vec(vec![Value::Int(1), Value::Int(2), text("a")]);
    assert_eq!(s.sorted(), Err(Error::IncomparableValues { left: Kind::Int, right: Kind::Str }));
    let one = Array::from_vec(vec![text("a")]);
    assert_eq!(one.sorted().unwrap(), one);
}

#[test]
fn join_with_separator() {
    let s = Array::from_vec(vec![text("a"), text("b"), text("c")]);
    assert_eq!(s.join(Some(text(",")), None), Ok(text("a,b,c")));
}

#[test]
fn join_with_last_separator() {
    let s = Array::from_vec(vec![text("a"), text("b"), text("c")]);
    assert_eq!(s.join(Some(text(",")), Some(text(" and "))), Ok(text("a,b and c")));
    let two = Array::from_vec(vec![text("a"), text("b")]);
    assert_eq!(two.join(Some(text(",")), Some(text(" and "))), Ok(text("a and b")));
}

#[test]
fn join_edge_cases() {
    assert_eq!(Array::new().join(Some(text(",")), None), Ok(Value::Nil));
    let one = Array::from_vec(vec![text("a")]);
    assert_eq!(one.join(Some(text(",")), Some(text(";"))), Ok(text("a")));
    let plain = Array::from_vec(vec![text("a"), text("b")]);
    assert_eq!(plain.join(None, None), Ok(text("ab")));
    assert_eq!(
        ints(&[1, 2]).join(None, None),
        Err(Error::CannotJoin { left: Kind::Nil, right: Kind::Int })
    );
}

#[test]
fn flatten_nested() {
    let inner = Array::from_vec(vec![Value::Int(3), Value::Int(4)]);
    let mid = Array::from_vec(vec![Value::Int(2), Value::Array(inner)]);
    let s = Array::from_vec(vec![Value::Int(1), Value::Array(mid), Value::Int(5)]);
    assert_eq!(s.flatten(), ints(&[1, 2, 3, 4, 5]));
    assert_eq!(Array::new().flatten(), Array::new());
}

#[test]
fn repeat_cycles_items() {
    assert_eq!(ints(&[1, 2]).repeat(3), Ok(ints(&[1, 2, 1, 2, 1, 2])));
    assert_eq!(ints(&[1, 2]).repeat(0), Ok(Array::new()));
    assert_eq!(Array::new().repeat(5), Ok(Array::new()));
}

#[test]
fn repeat_rejects_negative_and_overflow() {
    assert_eq!(ints(&[1, 2]).repeat(-1), Err(Error::RepeatOverflow { n: -1 }));
    assert_eq!(ints(&[1, 2, 3]).repeat(i64::MAX), Err(Error::RepeatOverflow { n: i64::MAX }));
}

#[test]
fn as_slice_and_iter_see_items() {
    let s = ints(&[4, 5]);
    assert_eq!(s.as_slice(), &[Value::Int(4), Value::Int(5)]);
    let seen: Vec<Value> = s.iter().cloned().collect();
    assert_eq!(seen, vec![Value::Int(4), Value::Int(5)]);
}

#[test]
fn append_moves_or_copies_items() {
    let mut a = ints(&[1, 2]);
    a.append(ints(&[3]));
    assert_eq!(a, ints(&[1, 2, 3]));
    let shared = ints(&[4, 5]);
    let keep = shared.clone();
    a.append(shared);
    assert_eq!(a, ints(&[1, 2, 3, 4, 5]));
    assert_eq!(keep, ints(&[4, 5]));
}

#[test]
fn join_keeps_empty_string_and_reports_first_error() {
    let one = Array::from_vec(vec![text("")]);
    assert_eq!(one.join(None, None), Ok(text("")));
    let mixed = Array::from_vec(vec![text("a"), Value::Int(1)]);
    assert_eq!(
        mixed.join(Some(text(",")), None),
        Err(Error::CannotJoin { left: Kind::Str, right: Kind::Int })
    );
    let bad_sep = Array::from_vec(vec![Value::Nil, Value::Nil]);
    assert_eq!(
        bad_sep.join(Some(Value::Bool(true)), None),
        Err(Error::CannotJoin { left: Kind::Nil, right: Kind::Bool })
    );
}

#[test]
fn contains_nested_array_value() {
    let inner = ints(&[1, 2]);
    let s = Array::from_vec(vec![Value::Int(0), Value::Array(inner.clone())]);
    assert!(s.contains(&Value::Array(inner)));
    assert!(!s.contains(&Value::Array(ints(&[1, 3]))));
    assert!(!s.contains(&Value::Array(ints(&[1]))));
}

#[test]
fn default_is_empty_and_equal_arrays_hash_alike() {
    assert_eq!(Array::default(), Array::new());
    let hash = |a: &Array| {
        let mut h = DefaultHasher::new();
        a.hash(&mut h);
        h.finish()
    };
    assert_eq!(hash(&ints(&[1, 2])), hash(&ints(&[1, 2]).clone()));
}
