use std::rc::Rc;

use evalcore::{
    ArgExpr, Args, Array, Closure, ClosureExpr, Context, Diag, Error, Expr, Func, Kind, Machine,
    Op, Scope, Span, Target, Value,
};

const SP: Span = Span { id: 1 };

fn vm() -> Machine {
    Machine::new(vec![], Scope::new(), 64)
}

fn ident(x: &str) -> Expr {
    Expr::Ident(SP, x.to_string())
}

fn lit(v: Value) -> Expr {
    Expr::Lit(v)
}

fn closure(params: Vec<(&str, Option<Value>)>, sink: Option<&str>, body: Expr) -> Closure {
    Closure {
        location: None,
        name: None,
        captured: Scope::new(),
        params: params.into_iter().map(|(n, d)| (n.to_string(), d)).collect(),
        sink: sink.map(|s| s.to_string()),
        body: Rc::new(body),
    }
}

fn pos(v: Value) -> Args {
    let mut a = Args::new(SP);
    a.push(SP, v);
    a
}

fn call_expr(callee: Expr, args: Vec<Expr>) -> Expr {
    Expr::Call(
        SP,
        Box::new(callee),
        args.into_iter().map(|value| ArgExpr { span: SP, name: None, value }).collect(),
    )
}

fn gt_three() -> Func {
    let gt = Func::from_fn("gt", Op::Gt);
    let body = call_expr(lit(Value::Func(gt)), vec![ident("v"), lit(Value::Int(3))]);
    Func::from_closure(closure(vec![("v", None)], None, body))
}

#[test]
fn closure_captures_at_definition() {
    let literal = Expr::Closure(ClosureExpr {
        location: None,
        name: None,
        params: vec![],
        sink: None,
        body: Rc::new(ident("x")),
    });
    let program = Expr::Block(vec![
        Expr::Let("x".to_string(), Box::new(lit(Value::Int(1)))),
        Expr::Let("f".to_string(), Box::new(literal)),
        Expr::Let("x".to_string(), Box::new(lit(Value::Int(2)))),
        call_expr(ident("f"), vec![]),
    ]);
    let mut m = vm();
    assert_eq!(program.eval(&mut m), Ok(Value::Int(1)));
    assert_eq!(m.scope.get("x"), Some(Value::Int(2)));
}

#[test]
fn default_parameter_ignores_positional_argument() {
    let f = Func::from_closure(closure(vec![("p", Some(Value::Int(7)))], Some("rest"), ident("p")));
    let mut m = vm();
    assert_eq!(f.call(&mut m, pos(Value::Int(5))), Ok(Value::Int(7)));
    let mut named = Args::new(SP);
    named.push_named(SP, "p".to_string(), Value::Int(9));
    assert_eq!(f.call(&mut m, named), Ok(Value::Int(9)));
}

#[test]
fn unconsumed_positional_argument_is_unexpected() {
    let f = Func::from_closure(closure(vec![("p", Some(Value::Int(7)))], None, ident("p")));
    let mut m = vm();
    assert_eq!(
        f.call(&mut m, pos(Value::Int(5))),
        Err(Diag { span: SP, error: Error::UnexpectedArgument })
    );
}

#[test]
fn sink_collects_remaining_arguments() {
    let f = Func::from_closure(closure(vec![("a", None)], Some("rest"), ident("rest")));
    let mut args = pos(Value::Int(1));
    args.push(SP, Value::Int(2));
    args.push(SP, Value::Int(3));
    let mut m = vm();
    let expected = Array::from_vec(vec![Value::Int(2), Value::Int(3)]);
    assert_eq!(f.call(&mut m, args), Ok(Value::Array(expected)));
}

#[test]
fn missing_argument_names_parameter() {
    let f = Func::from_closure(closure(vec![("x", None)], None, ident("x")));
    let mut m = vm();
    assert_eq!(
        f.call(&mut m, Args::new(SP)),
        Err(Diag { span: SP, error: Error::MissingArgument { name: "x".to_string() } })
    );
}

#[test]
fn find_with_predicate() {
    let s = Array::from_vec(vec![Value::Int(5)]);
    let mut m = vm();
    assert_eq!(s.find(&mut m, Target::Func(gt_three(), SP)), Ok(Some(0)));
    let t = Array::from_vec(vec![Value::Int(1), Value::Int(2), Value::Int(8)]);
    assert_eq!(t.find(&mut m, Target::Func(gt_three(), SP)), Ok(Some(2)));
}

#[test]
fn find_in_empty_is_none() {
    let mut m = vm();
    assert_eq!(Array::new().find(&mut m, Target::Value(Value::Int(1))), Ok(None));
    assert_eq!(Array::new().find(&mut m, Target::Func(gt_three(), SP)), Ok(None));
}

#[test]
fn find_by_value() {
    let s = Array::from_vec(vec![Value::Int(1), Value::Int(2), Value::Int(2)]);
    let mut m = vm();
    assert_eq!(s.find(&mut m, Target::Value(Value::Int(2))), Ok(Some(1)));
    assert_eq!(s.find(&mut m, Target::Value(Value::Int(4))), Ok(None));
}

#[test]
fn map_with_and_without_index() {
    let s = Array::from_vec(vec![Value::Int(10), Value::Int(20)]);
    let add = Func::from_fn("add", Op::Add);
    let two = Func::from_closure(closure(
        vec![("i", None), ("v", None)],
        None,
        call_expr(lit(Value::Func(add.clone())), vec![ident("i"), ident("v")]),
    ));
    let mut m = vm();
    assert_eq!(
        s.map(&mut m, &two, SP),
        Ok(Array::from_vec(vec![Value::Int(10), Value::Int(21)]))
    );
    let one = Func::from_closure(closure(
        vec![("v", None)],
        None,
        call_expr(lit(Value::Func(add)), vec![ident("v"), ident("v")]),
    ));
    assert_eq!(
        s.map(&mut m, &one, SP),
        Ok(Array::from_vec(vec![Value::Int(20), Value::Int(40)]))
    );
}

#[test]
fn filter_keeps_order() {
    let s = Array::from_vec(vec![Value::Int(5), Value::Int(1), Value::Int(4)]);
    let mut m = vm();
    assert_eq!(
        s.filter(&mut m, &gt_three(), SP),
        Ok(Array::from_vec(vec![Value::Int(5), Value::Int(4)]))
    );
}

#[test]
fn filter_requires_boolean() {
    let s = Array::from_vec(vec![Value::Int(5)]);
    let id = Func::from_closure(closure(vec![("v", None)], None, ident("v")));
    let mut m = vm();
    assert_eq!(
        s.filter(&mut m, &id, SP),
        Err(Diag { span: SP, error: Error::TypeMismatch { expected: Kind::Bool, found: Kind::Int } })
    );
}

#[test]
fn argc_of_closure_and_partial_application() {
    let f = Func::from_closure(closure(
        vec![("a", None), ("b", None), ("c", Some(Value::Nil))],
        None,
        lit(Value::Nil),
    ));
    assert_eq!(f.argc(), Some(2));
    let g = f.with(pos(Value::Int(1)));
    assert_eq!(g.argc(), Some(1));
    let h = g.with(pos(Value::Int(2)));
    assert_eq!(h.clone().with(pos(Value::Int(3))).argc(), Some(0));
    assert_eq!(Func::from_fn("add", Op::Add).argc(), None);
}

#[test]
fn partial_application_prepends_arguments() {
    let gt = Func::from_fn("gt", Op::Gt).with(pos(Value::Int(5)));
    let mut m = vm();
    assert_eq!(gt.call(&mut m, pos(Value::Int(3))), Ok(Value::Bool(true)));
    let twice = gt.with(pos(Value::Int(9)));
    assert_eq!(twice.call(&mut m, Args::new(SP)), Ok(Value::Bool(false)));
}

#[test]
fn name_is_transparent_through_application() {
    let mut c = closure(vec![], None, lit(Value::Nil));
    c.name = Some("double".to_string());
    let f = Func::from_closure(c);
    assert_eq!(f.name(), Some("double".to_string()));
    assert_eq!(f.with(Args::new(SP)).name(), Some("double".to_string()));
    assert_eq!(Func::from_closure(closure(vec![], None, lit(Value::Nil))).name(), None);
    assert_eq!(Func::from_fn("gt", Op::Gt).name(), Some("gt".to_string()));
}

#[test]
fn native_call_validates_arguments() {
    let add = Func::from_fn("add", Op::Add);
    let mut m = vm();
    let mut args = pos(Value::Int(2));
    args.push(SP, Value::Int(3));
    assert_eq!(add.call(&mut m, args), Ok(Value::Int(5)));
    let mut extra = pos(Value::Int(2));
    extra.push(SP, Value::Int(3));
    extra.push(Span { id: 7 }, Value::Int(4));
    assert_eq!(
        add.call(&mut m, extra),
        Err(Diag { span: Span { id: 7 }, error: Error::UnexpectedArgument })
    );
    let mut big = pos(Value::Int(i64::MAX));
    big.push(SP, Value::Int(1));
    assert_eq!(add.call(&mut m, big), Err(Diag { span: SP, error: Error::Overflow }));
    let mut wrong = pos(Value::Bool(true));
    wrong.push(SP, Value::Int(1));
    assert_eq!(
        add.call(&mut m, wrong),
        Err(Diag { span: SP, error: Error::TypeMismatch { expected: Kind::Int, found: Kind::Bool } })
    );
}

#[test]
fn node_and_set_rule() {
    let plain = Func::from_fn("gt", Op::Gt);
    assert_eq!(plain.node(), Err(Error::NotCustomizable));
    let set = plain.set(Args::new(SP)).unwrap();
    assert!(set.entries.is_empty());
    assert_eq!(
        plain.set(pos(Value::Int(1))).err(),
        Some(Diag { span: SP, error: Error::UnexpectedArgument })
    );
    let node = Func::from_node("text", Op::Gt, vec!["fill".to_string()], Some(42));
    assert_eq!(node.node(), Ok(42));
    let mut args = Args::new(SP);
    args.push_named(SP, "fill".to_string(), Value::Int(1));
    args.push_named(SP, "fill".to_string(), Value::Int(2));
    let styles = node.set(args).unwrap();
    assert_eq!(styles.entries, vec![("fill".to_string(), Value::Int(2))]);
}

#[test]
fn functions_equal_only_when_shared() {
    let f = gt_three();
    let g = f.clone();
    assert!(f == g);
    assert!(gt_three() != gt_three());
}

#[test]
fn control_flow_in_closure_body() {
    let ret = Func::from_closure(closure(
        vec![],
        None,
        Expr::Block(vec![
            Expr::Return(SP, Some(Box::new(lit(Value::Int(4))))),
            lit(Value::Int(5)),
        ]),
    ));
    let mut m = vm();
    assert_eq!(ret.call(&mut m, Args::new(SP)), Ok(Value::Int(4)));
    let bare = Func::from_closure(closure(vec![], None, Expr::Return(SP, None)));
    assert_eq!(bare.call(&mut m, Args::new(SP)), Ok(Value::Nil));
    let brk = Func::from_closure(closure(vec![], None, Expr::Break(Span { id: 3 })));
    assert_eq!(
        brk.call(&mut m, Args::new(SP)),
        Err(Diag { span: Span { id: 3 }, error: Error::ForbiddenControlFlow })
    );
    assert!(m.flow.is_none());
}

#[test]
fn detached_call_and_recursion_limit() {
    let mut ctx = Context { depth: 8, deps: vec![] };
    let f = Func::from_closure(closure(vec![("x", None)], None, ident("x")));
    assert_eq!(f.call_detached(&mut ctx, pos(Value::Int(3))), Ok(Value::Int(3)));
    let mut shallow = Context { depth: 0, deps: vec![] };
    assert_eq!(
        f.call_detached(&mut shallow, pos(Value::Int(3))),
        Err(Diag { span: SP, error: Error::RecursionLimit })
    );
}

#[test]
fn route_starts_at_definition_only_when_detached() {
    assert_eq!(evalcore::route_for(&vec![], Some(4)), vec![4]);
    assert_eq!(evalcore::route_for(&vec![], None), Vec::<u64>::new());
    assert_eq!(evalcore::route_for(&vec![1, 2], Some(4)), vec![1, 2]);
}

#[test]
fn unknown_variable_and_non_callable() {
    let mut m = vm();
    assert_eq!(
        ident("nope").eval(&mut m),
        Err(Diag { span: SP, error: Error::UnknownVariable { name: "nope".to_string() } })
    );
    assert_eq!(
        call_expr(lit(Value::Int(1)), vec![]).eval(&mut m),
        Err(Diag { span: SP, error: Error::TypeMismatch { expected: Kind::Func, found: Kind::Int } })
    );
}

#[test]
fn target_from_value_splits_functions() {
    let f = gt_three();
    assert!(matches!(Target::from_value(Value::Func(f), SP), Target::Func(_, _)));
    assert!(matches!(Target::from_value(Value::Int(1), SP), Target::Value(Value::Int(1))));
}

#[test]
fn find_and_filter_with_partially_applied_native() {
    // lt(3, v) holds exactly when v > 3
    let above_three = Func::from_fn("lt", Op::Lt).with(pos(Value::Int(3)));
    let s = Array::from_vec(vec![Value::Int(5)]);
    let mut m = vm();
    assert_eq!(s.find(&mut m, Target::Func(above_three.clone(), SP)), Ok(Some(0)));
    let t = Array::from_vec(vec![Value::Int(1), Value::Int(7), Value::Int(3), Value::Int(4)]);
    assert_eq!(
        t.filter(&mut m, &above_three, SP),
        Ok(Array::from_vec(vec![Value::Int(7), Value::Int(4)]))
    );
}

#[test]
fn map_with_native_reports_first_failure() {
    let s = Array::from_vec(vec![Value::Int(1), Value::Bool(true), Value::Nil]);
    let add_one = Func::from_fn("add", Op::Add).with(pos(Value::Int(1)));
    let mut m = vm();
    assert_eq!(
        s.map(&mut m, &add_one, SP),
        Err(Diag { span: SP, error: Error::TypeMismatch { expected: Kind::Int, found: Kind::Bool } })
    );
    let ok = Array::from_vec(vec![Value::Int(1), Value::Int(2)]);
    assert_eq!(
        ok.map(&mut m, &add_one, SP),
        Ok(Array::from_vec(vec![Value::Int(2), Value::Int(3)]))
    );
}

#[test]
fn sink_does_not_hide_captured_names() {
    let literal = Expr::Closure(ClosureExpr {
        location: None,
        name: None,
        params: vec![],
        sink: Some("rest".to_string()),
        body: Rc::new(ident("x")),
    });
    let program = Expr::Block(vec![
        Expr::Let("x".to_string(), Box::new(lit(Value::Int(1)))),
        Expr::Let("f".to_string(), Box::new(literal)),
        Expr::Let("x".to_string(), Box::new(lit(Value::Int(2)))),
        call_expr(ident("f"), vec![lit(Value::Int(8))]),
    ]);
    let mut m = vm();
    assert_eq!(program.eval(&mut m), Ok(Value::Int(1)));
}

#[test]
fn partial_application_of_closure_joins_arguments() {
    let add = Func::from_fn("add", Op::Add);
    let f = Func::from_closure(closure(
        vec![("a", None), ("b", None)],
        None,
        call_expr(lit(Value::Func(add)), vec![ident("a"), ident("b")]),
    ));
    let g = f.with(pos(Value::Int(10)));
    let mut m = vm();
    assert_eq!(g.call(&mut m, pos(Value::Int(5))), Ok(Value::Int(15)));
    let mut more = pos(Value::Int(5));
    more.push(Span { id: 9 }, Value::Int(6));
    assert_eq!(
        g.call(&mut m, more),
        Err(Diag { span: Span { id: 9 }, error: Error::UnexpectedArgument })
    );
}

#[test]
fn detached_call_applies_set_rule_first() {
    let node = Func::from_node("text", Op::Add, vec!["fill".to_string()], None);
    let mut ctx = Context { depth: 4, deps: vec![] };
    let mut args = pos(Value::Int(2));
    args.push_named(SP, "fill".to_string(), Value::Int(1));
    args.push(SP, Value::Int(3));
    assert_eq!(node.call_detached(&mut ctx, args), Ok(Value::Int(5)));
}
