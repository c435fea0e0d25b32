use lambda_rs::compiler::Form;
use lambda_rs::engine::{Definition, Expr};
use lambda_rs::library::{IDENTITY, STANDARD_LEN, TALLY};
use lambda_rs::math::{ConstIncrement, ConstNumber};
use lambda_rs::registry::Registry;
use lambda_rs::term::{Bound, EvalError, Value};

const FUEL: u64 = 10_000;

fn strings(names: &[&str]) -> Vec<String> {
    names.iter().map(|s| s.to_string()).collect()
}

fn call(head: Form, args: Vec<Form>) -> Form {
    Form::call(head, args)
}

#[test]
fn define_compiles_names_to_indices() {
    let mut reg = Registry::new();
    let id = reg.define("Id".to_string(), strings(&["x"]), &Form::name("x"));
    assert_eq!(id, Ok(0));
    let k = reg.define("K".to_string(), strings(&["a", "b"]), &Form::name("a"));
    assert_eq!(k, Ok(1));
    let body = call(Form::name("f"), vec![call(Form::name("Id"), vec![Form::name("x")])]);
    let app = reg.define("App".to_string(), strings(&["f", "x"]), &body);
    assert_eq!(app, Ok(2));
    assert_eq!(reg.len(), 3);
    assert_eq!(reg.lookup(&"K".to_string()), Some(1));
    assert_eq!(reg.lookup(&"Nope".to_string()), None);
    let f = call(Form::name("App"), vec![call(Form::name("K"), vec![Form::Atom(9)]), Form::Atom(4)]);
    assert_eq!(reg.resolve_form(&f, FUEL), Ok(Value::Atom(9)));
}

#[test]
fn later_parameter_shadows_earlier() {
    let mut reg = Registry::new();
    assert_eq!(reg.define("Snd".to_string(), strings(&["x", "x"]), &Form::name("x")), Ok(0));
    let f = call(Form::name("Snd"), vec![Form::Atom(1), Form::Atom(2)]);
    assert_eq!(reg.resolve_form(&f, FUEL), Ok(Value::Atom(2)));
}

#[test]
fn unknown_name_is_unbound() {
    let mut reg = Registry::new();
    let r = reg.define("Bad".to_string(), strings(&["x"]), &call(Form::name("y"), vec![Form::name("x")]));
    assert_eq!(r, Err(EvalError::UnboundName));
    assert_eq!(reg.len(), 0);
    assert_eq!(reg.resolve_form(&Form::name("Missing"), FUEL), Err(EvalError::UnboundName));
}

#[test]
fn self_reference_is_unbound() {
    let mut reg = Registry::new();
    let r = reg.define("Loop".to_string(), strings(&["x"]), &call(Form::name("Loop"), vec![Form::name("x")]));
    assert_eq!(r, Err(EvalError::UnboundName));
}

#[test]
fn zero_parameter_definition_evaluates_at_once() {
    let mut reg = Registry::new();
    assert_eq!(reg.define("Id".to_string(), strings(&["x"]), &Form::name("x")), Ok(0));
    let body = call(Form::name("Id"), vec![Form::Atom(3)]);
    assert_eq!(reg.define("Three".to_string(), vec![], &body), Ok(1));
    assert_eq!(reg.resolve_form(&Form::name("Three"), FUEL), Ok(Value::Atom(3)));
    assert_eq!(reg.refer(1, FUEL), Ok(Value::Atom(3)));
    assert_eq!(reg.refer(0, FUEL), Ok(Value::Partial { def: 0, bound: Bound::Empty }));
    assert_eq!(reg.refer(1, 0), Err(EvalError::NonTermination));
    assert_eq!(reg.refer(2, FUEL), Err(EvalError::UnboundName));
}

#[test]
fn self_application_runs_out_of_fuel() {
    let mut reg = Registry::new();
    let body = call(Form::name("x"), vec![Form::name("x")]);
    assert_eq!(reg.define("SelfApply".to_string(), strings(&["x"]), &body), Ok(0));
    let omega = call(Form::name("SelfApply"), vec![Form::name("SelfApply")]);
    assert_eq!(reg.resolve_form(&omega, 50), Err(EvalError::NonTermination));
}

#[test]
fn saturated_value_given_more_is_arity_mismatch() {
    let reg = Registry::standard();
    let full = Value::Partial {
        def: IDENTITY,
        bound: Bound::Then(Box::new(Bound::Empty), Box::new(Value::Atom(1))),
    };
    assert_eq!(reg.apply(full, Value::Atom(2), FUEL), Err(EvalError::ArityMismatch));
}

#[test]
fn unknown_definition_index_is_unbound() {
    let reg = Registry::standard();
    let v = Value::Partial { def: 999, bound: Bound::Empty };
    assert_eq!(reg.apply(v, Value::Atom(0), FUEL), Err(EvalError::UnboundName));
    assert_eq!(reg.resolve(&Expr::Def(999), FUEL), Err(EvalError::UnboundName));
    assert_eq!(reg.resolve(&Expr::Param(0), FUEL), Err(EvalError::UnboundName));
}

#[test]
fn partial_application_binds_in_order() {
    let reg = Registry::standard();
    let e = Expr::Apply(Box::new(Expr::Def(TALLY)), Box::new(Expr::Atom(5)));
    let expected = Value::Partial {
        def: TALLY,
        bound: Bound::Then(Box::new(Bound::Empty), Box::new(Value::Atom(5))),
    };
    assert_eq!(reg.resolve(&e, FUEL), Ok(expected));
}

#[test]
fn resolve_needs_fuel_for_saturation() {
    let reg = Registry::standard();
    let e = Expr::Apply(Box::new(Expr::Def(IDENTITY)), Box::new(Expr::Atom(5)));
    assert_eq!(reg.resolve(&e, 0), Err(EvalError::NonTermination));
    assert_eq!(reg.resolve(&e, 1), Ok(Value::Atom(5)));
}

#[test]
fn standard_registry_size_and_names() {
    let reg = Registry::standard();
    assert_eq!(reg.len(), STANDARD_LEN);
    assert_eq!(reg.lookup(&"Identity".to_string()), Some(IDENTITY));
    assert_eq!(reg.lookup(&"Tally".to_string()), Some(TALLY));
}

#[test]
fn group_flattens_left_to_right() {
    let f = Form::call(Form::Atom(1), vec![Form::Atom(2), Form::Atom(3)]);
    let expected = Form::Apply(
        Box::new(Form::Apply(Box::new(Form::Atom(1)), Box::new(Form::Atom(2)))),
        Box::new(Form::Atom(3)),
    );
    assert_eq!(f, expected);
    assert_eq!(Form::call(Form::Atom(1), vec![]), Form::Atom(1));
}

#[test]
fn definition_holds_arity_and_body() {
    let d = Definition { arity: 1, body: Expr::Param(0) };
    assert_eq!(d.arity, 1);
    assert_eq!(d.body, Expr::Param(0));
}

#[test]
fn const_number_and_increment() {
    assert_eq!(ConstNumber::<3>::value(), 3);
    assert_eq!(ConstNumber::<0>::value(), 0);
    assert_eq!(ConstIncrement.call(41), Some(42));
    assert_eq!(ConstIncrement.call(u64::MAX), None);
}

#[test]
fn duplicate_values_are_equal() {
    let v = Value::Partial {
        def: 2,
        bound: Bound::Then(Box::new(Bound::Empty), Box::new(Value::Atom(7))),
    };
    assert_eq!(v.duplicate(), v);
    let f = Form::call(Form::name("a"), vec![Form::Atom(1)]);
    assert_eq!(f.duplicate(), f);
}
