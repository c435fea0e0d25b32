use lambda_rs::compiler::Form;
use lambda_rs::library::{FIRST_OF, IDENTITY, SECOND_OF, SUCCESSOR};
use lambda_rs::registry::Registry;
use lambda_rs::term::{Bound, EvalError, Value};

const FUEL: u64 = 100_000;

fn name(s: &str) -> Form {
    Form::name(s)
}

fn call(head: &str, args: Vec<Form>) -> Form {
    Form::call(name(head), args)
}

fn zero() -> Form {
    name("SecondOf")
}

fn num(n: u64) -> Form {
    let mut f = zero();
    for _ in 0..n {
        f = call("Successor", vec![f]);
    }
    f
}

fn truthy() -> Value {
    Value::Partial { def: FIRST_OF, bound: Bound::Empty }
}

fn falsy() -> Value {
    Value::Partial { def: SECOND_OF, bound: Bound::Empty }
}

fn boolean(b: bool) -> Form {
    if b {
        name("FirstOf")
    } else {
        name("SecondOf")
    }
}

fn bool_value(b: bool) -> Value {
    if b {
        truthy()
    } else {
        falsy()
    }
}

fn resolve(reg: &Registry, f: &Form) -> Value {
    reg.resolve_form(f, FUEL).expect("resolves")
}

fn number(reg: &Registry, f: &Form) -> u64 {
    let v = resolve(reg, f);
    reg.to_number(v, FUEL).expect("a numeral")
}

#[test]
fn t() {
    let reg = Registry::standard();
    let nil = call("Null", vec![name("Nil")]);
    assert_eq!(resolve(&reg, &nil), truthy());
    let pair = call("Null", vec![call("Pair", vec![Form::Atom(0), name("Nil")])]);
    assert_eq!(resolve(&reg, &pair), falsy());
}

#[test]
fn main() {
    let reg = Registry::standard();
    let two = call("Successor", vec![call("Successor", vec![zero()])]);
    let three = call("Successor", vec![two]);
    let three_again = num(3);
    assert_eq!(resolve(&reg, &call("Eq", vec![three, three_again])), truthy());
}

#[test]
fn if_on_eq_of_product_and_power() {
    let reg = Registry::standard();
    let cond = call(
        "Eq",
        vec![call("Multiply", vec![num(2), num(4)]), call("Exponent", vec![num(2), num(3)])],
    );
    let f = call("If", vec![cond, Form::Atom(8), Form::Atom(0)]);
    assert_eq!(resolve(&reg, &f), Value::Atom(8));
}

#[test]
fn and_or_xor_not_tables() {
    let reg = Registry::standard();
    for a in [false, true] {
        assert_eq!(resolve(&reg, &call("Not", vec![boolean(a)])), bool_value(!a));
        for b in [false, true] {
            let args = || vec![boolean(a), boolean(b)];
            assert_eq!(resolve(&reg, &call("And", args())), bool_value(a && b));
            assert_eq!(resolve(&reg, &call("Or", args())), bool_value(a || b));
            assert_eq!(resolve(&reg, &call("Xor", args())), bool_value(a != b));
        }
    }
}

#[test]
fn if_selects_by_predicate() {
    let reg = Registry::standard();
    let x = Form::Atom(10);
    let y = Form::Atom(20);
    assert_eq!(resolve(&reg, &call("If", vec![boolean(true), x, Form::Atom(20)])), Value::Atom(10));
    assert_eq!(resolve(&reg, &call("If", vec![boolean(false), Form::Atom(10), y])), Value::Atom(20));
}

#[test]
fn add_one_to_two_is_three() {
    let reg = Registry::standard();
    let sum = call("Add", vec![call("Successor", vec![call("Successor", vec![zero()])]), call("Successor", vec![zero()])]);
    assert_eq!(number(&reg, &sum), 3);
}

#[test]
fn arithmetic_counts() {
    let reg = Registry::standard();
    for m in 0..5u64 {
        for n in 0..5u64 {
            assert_eq!(number(&reg, &call("Add", vec![num(m), num(n)])), m + n);
            assert_eq!(number(&reg, &call("Multiply", vec![num(m), num(n)])), m * n);
            if m >= n {
                assert_eq!(number(&reg, &call("Subtract", vec![num(m), num(n)])), m - n);
            }
            if n > 0 && m > 0 {
                assert_eq!(number(&reg, &call("Exponent", vec![num(m), num(n)])), m.pow(n as u32));
            }
        }
    }
}

#[test]
fn subtract_stops_at_zero() {
    let reg = Registry::standard();
    assert_eq!(number(&reg, &call("Subtract", vec![num(1), num(3)])), 0);
}

#[test]
fn predecessor_of_three_is_two() {
    let reg = Registry::standard();
    assert_eq!(number(&reg, &call("Predecessor", vec![num(3)])), 2);
    assert_eq!(number(&reg, &call("Predecessor", vec![num(0)])), 0);
}

#[test]
fn is_zero_of_numerals() {
    let reg = Registry::standard();
    assert_eq!(resolve(&reg, &call("IsZero", vec![zero()])), truthy());
    for n in 1..6u64 {
        assert_eq!(resolve(&reg, &call("IsZero", vec![num(n)])), falsy());
    }
}

#[test]
fn leq_of_numerals() {
    let reg = Registry::standard();
    assert_eq!(resolve(&reg, &call("Leq", vec![num(2), num(3)])), truthy());
    assert_eq!(resolve(&reg, &call("Leq", vec![num(3), num(3)])), truthy());
    assert_eq!(resolve(&reg, &call("Leq", vec![num(4), num(3)])), falsy());
}

#[test]
fn equal_iff_same_count() {
    let reg = Registry::standard();
    for m in 0..6u64 {
        for n in 0..6u64 {
            let eq = resolve(&reg, &call("Eq", vec![num(m), num(n)]));
            let qe = resolve(&reg, &call("Eq", vec![num(n), num(m)]));
            assert_eq!(eq, bool_value(m == n));
            assert_eq!(eq, qe);
        }
    }
}

#[test]
fn eq_of_product_and_power_is_truthy() {
    let reg = Registry::standard();
    let f = call(
        "Eq",
        vec![call("Multiply", vec![num(2), num(4)]), call("Exponent", vec![num(2), num(3)])],
    );
    assert_eq!(resolve(&reg, &f), truthy());
}

#[test]
fn if_eq_three_three_gives_first() {
    let reg = Registry::standard();
    let a = Form::Atom(65);
    let b = Form::Atom(66);
    let f = call("If", vec![call("Eq", vec![num(3), num(3)]), a, b]);
    assert_eq!(resolve(&reg, &f), Value::Atom(65));
}

#[test]
fn curry_matches_direct_call() {
    let reg = Registry::standard();
    for def in ["And", "Or", "Xor", "Add"] {
        for (x, y) in [(num(1), num(2)), (boolean(true), boolean(false)), (boolean(false), boolean(true))] {
            let direct = reg.resolve_form(&call(def, vec![x.duplicate(), y.duplicate()]), FUEL);
            let curried = reg.resolve_form(&call("Curry", vec![name(def), x, y]), FUEL);
            assert_eq!(curried, direct);
        }
    }
}

#[test]
fn pair_projections_and_null() {
    let reg = Registry::standard();
    let pair = || call("Pair", vec![Form::Atom(1), Form::Atom(2)]);
    assert_eq!(resolve(&reg, &call("First", vec![pair()])), Value::Atom(1));
    assert_eq!(resolve(&reg, &call("Second", vec![pair()])), Value::Atom(2));
    assert_eq!(resolve(&reg, &call("Null", vec![name("Nil")])), truthy());
    assert_eq!(resolve(&reg, &call("Null", vec![pair()])), falsy());
}

#[test]
fn compose_is_associative_on_inputs() {
    let reg = Registry::standard();
    let fs = ["Not", "Successor", "IsZero"];
    for f in fs {
        for g in fs {
            for h in fs {
                for x in [boolean(true), num(2)] {
                    let left = call("Compose", vec![call("Compose", vec![name(f), name(g)]), name(h)]);
                    let right = call("Compose", vec![name(f), call("Compose", vec![name(g), name(h)])]);
                    let l = reg.resolve_form(&Form::call(left, vec![x.duplicate()]), FUEL);
                    let r = reg.resolve_form(&Form::call(right, vec![x]), FUEL);
                    assert_eq!(l, r);
                }
            }
        }
    }
}

#[test]
fn sheinfinkel_applies_to_shared_argument() {
    let reg = Registry::standard();
    // S K K x = x
    let f = call("Sheinfinkel", vec![name("Constant"), name("Constant"), Form::Atom(7)]);
    assert_eq!(resolve(&reg, &f), Value::Atom(7));
}

#[test]
fn apply_identity_to_atom_returns_it() {
    let reg = Registry::standard();
    let f = call("Apply", vec![name("Identity"), Form::Atom(42)]);
    assert_eq!(resolve(&reg, &f), Value::Atom(42));
    let id = Value::Partial { def: IDENTITY, bound: Bound::Empty };
    assert_eq!(reg.apply(id, Value::Atom(42), FUEL), Ok(Value::Atom(42)));
}

#[test]
fn atom_in_function_position_is_shape_mismatch() {
    let reg = Registry::standard();
    let f = Form::call(Form::Atom(5), vec![Form::Atom(6)]);
    assert_eq!(reg.resolve_form(&f, FUEL), Err(EvalError::ShapeMismatch));
    assert_eq!(reg.apply(Value::Atom(5), Value::Atom(6), FUEL), Err(EvalError::ShapeMismatch));
}

#[test]
fn numeral_reading() {
    let reg = Registry::standard();
    assert_eq!(number(&reg, &zero()), 0);
    assert_eq!(number(&reg, &num(5)), 5);
    let one = Value::Partial {
        def: SUCCESSOR,
        bound: Bound::Then(Box::new(Bound::Empty), Box::new(falsy())),
    };
    assert_eq!(reg.to_number(one, FUEL), Ok(1));
    assert_eq!(reg.to_number(Value::Atom(3), FUEL), Err(EvalError::ShapeMismatch));
    assert_eq!(reg.to_number(truthy(), FUEL), Err(EvalError::ShapeMismatch));
}
