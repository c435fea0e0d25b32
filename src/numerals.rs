use vstd::prelude::*;
use crate::engine::{
    applies_to, apply, apply2, eval, lemma_applies_to_unique, lemma_apply_more_fuel, resolves_to,
    Definition, Expr,
};
use crate::laws::{
    call1, call2, composed, env1, env2, env3, lemma_composed, lemma_constant, lemma_env_args,
    lemma_eval_ap, lemma_eval_ap2, lemma_eval_params, lemma_eval_ref, lemma_saturate1,
    lemma_saturate2, lemma_saturate3, lemma_select,
};
use crate::library::{
    ap, bool_value, d, extends_standard, numeral, p, term_of, ADD, AND, COMPOSED, CONSTANT, EQ,
    EXPONENT,
    FIRST_OF, IDENTITY, IS_ZERO, LEQ, MULTIPLY, PREDECESSOR, PRED_STEP, SECOND_OF, SUBTRACT,
    SUCCESSOR, ZERO,
};
use crate::term::{Bound, EvalError, Value};

verus! {

/// `successor` applied `n` times to `zero`.
pub open spec fn numeral_expr(n: nat) -> Expr
    decreases n,
{
    if n == 0 {
        d(ZERO)
    } else {
        call1(SUCCESSOR, numeral_expr((n - 1) as nat))
    }
}

/// `successor` applied `n` times to `zero` resolves to the numeral `n`.
pub proof fn lemma_numeral_expr(defs: Seq<Definition>, n: nat, fuel: nat)
    requires
        extends_standard(defs),
    ensures
        eval(defs, numeral_expr(n), Bound::Empty, fuel) == Ok::<Value, EvalError>(numeral(n)),
    decreases n,
{
    lemma_eval_ref(defs, ZERO, Bound::Empty, fuel);
    if n > 0 {
        let k = (n - 1) as nat;
        lemma_numeral_expr(defs, k, fuel);
        lemma_eval_ref(defs, SUCCESSOR, Bound::Empty, fuel);
        lemma_eval_ap(defs, d(SUCCESSOR), numeral_expr(k), Bound::Empty, fuel, term_of(SUCCESSOR), numeral(k));
        lemma_saturate3(defs, SUCCESSOR, numeral(k), numeral(k), numeral(k), fuel);
    }
}

/// The numeral `m` applied to `successor` and the numeral `n` gives the
/// numeral `m + n`.
proof fn lemma_iterate_successor(defs: Seq<Definition>, m: nat, n: nat, fuel: nat)
    requires
        extends_standard(defs),
        fuel >= m + 2,
    ensures
        apply2(defs, numeral(m), term_of(SUCCESSOR), numeral(n), fuel) == Ok::<Value, EvalError>(numeral(m + n)),
    decreases m,
{
    let s = term_of(SUCCESSOR);
    if m == 0 {
        lemma_select(defs, false, s, numeral(n), fuel);
    } else {
        let k = (m - 1) as nat;
        let f1 = (fuel - 1) as nat;
        let mk = numeral(k);
        lemma_iterate_successor(defs, k, n, f1);
        lemma_saturate3(defs, SUCCESSOR, mk, s, numeral(n), fuel);
        lemma_saturate3(defs, SUCCESSOR, numeral(k + n), s, s, f1);
        let env = env3(mk, s, numeral(n));
        lemma_eval_params(defs, mk, s, numeral(n), f1);
        lemma_eval_ap2(defs, p(0), p(1), p(2), env, f1, mk, s, numeral(n));
        lemma_eval_ap(defs, p(1), ap(ap(p(0), p(1)), p(2)), env, f1, s, numeral(k + n));
    }
}

/// `add(m, n)` resolves to the numeral `m + n`, as `successor` applied
/// `m + n` times to zero does.
pub proof fn law_add(defs: Seq<Definition>, m: nat, n: nat)
    requires
        extends_standard(defs),
    ensures
        resolves_to(defs, call2(ADD, numeral_expr(m), numeral_expr(n)), numeral(m + n)),
        resolves_to(defs, numeral_expr(m + n), numeral(m + n)),
{
    let fuel = m + 3;
    let (vm, vn) = (numeral(m), numeral(n));
    lemma_numeral_expr(defs, m, fuel);
    lemma_numeral_expr(defs, n, fuel);
    lemma_numeral_expr(defs, m + n, 0);
    lemma_eval_ref(defs, ADD, Bound::Empty, fuel);
    lemma_eval_ap2(defs, d(ADD), numeral_expr(m), numeral_expr(n), Bound::Empty, fuel, term_of(ADD), vm, vn);
    lemma_saturate2(defs, ADD, vm, vn, fuel);
    lemma_eval_params(defs, vm, vn, vn, (fuel - 1) as nat);
    lemma_eval_ref(defs, SUCCESSOR, env2(vm, vn), (fuel - 1) as nat);
    lemma_eval_ap2(defs, p(0), d(SUCCESSOR), p(1), env2(vm, vn), (fuel - 1) as nat, vm, term_of(SUCCESSOR), vn);
    lemma_iterate_successor(defs, m, n, (fuel - 1) as nat);
    assert(eval(defs, call2(ADD, numeral_expr(m), numeral_expr(n)), Bound::Empty, fuel) == Ok::<Value, EvalError>(numeral(m + n)));
    assert(eval(defs, numeral_expr(m + n), Bound::Empty, 0) == Ok::<Value, EvalError>(numeral(m + n)));
}

/// The numeral `n` applied to `Constant(False)` and `True` gives whether `n` is zero.
proof fn lemma_zero_test(defs: Seq<Definition>, n: nat, fuel: nat)
    requires
        extends_standard(defs),
        fuel >= n + 2,
    ensures
        apply2(
            defs,
            numeral(n),
            Value::Partial { def: CONSTANT, bound: env1(bool_value(false)) },
            bool_value(true),
            fuel,
        ) == Ok::<Value, EvalError>(bool_value(n == 0)),
    decreases n,
{
    let cf = Value::Partial { def: CONSTANT, bound: env1(bool_value(false)) };
    let t = bool_value(true);
    if n == 0 {
        lemma_select(defs, false, cf, t, fuel);
    } else {
        let k = (n - 1) as nat;
        let f1 = (fuel - 1) as nat;
        let mk = numeral(k);
        lemma_zero_test(defs, k, f1);
        lemma_saturate3(defs, SUCCESSOR, mk, cf, t, fuel);
        let env = env3(mk, cf, t);
        lemma_eval_params(defs, mk, cf, t, f1);
        lemma_eval_ap2(defs, p(0), p(1), p(2), env, f1, mk, cf, t);
        lemma_eval_ap(defs, p(1), ap(ap(p(0), p(1)), p(2)), env, f1, cf, bool_value(k == 0));
        lemma_constant(defs, bool_value(false), bool_value(k == 0), f1);
    }
}

/// `is_zero(zero)` is truthy, and `is_zero` of any successor is falsy.
pub proof fn law_is_zero(defs: Seq<Definition>, n: nat)
    requires
        extends_standard(defs),
    ensures
        resolves_to(defs, call1(IS_ZERO, numeral_expr(n)), bool_value(n == 0)),
{
    let fuel = n + 4;
    let f1 = (fuel - 1) as nat;
    let vn = numeral(n);
    let cf = Value::Partial { def: CONSTANT, bound: env1(bool_value(false)) };
    lemma_numeral_expr(defs, n, fuel);
    lemma_eval_ref(defs, IS_ZERO, Bound::Empty, fuel);
    lemma_eval_ap(defs, d(IS_ZERO), numeral_expr(n), Bound::Empty, fuel, term_of(IS_ZERO), vn);
    lemma_saturate1(defs, IS_ZERO, vn, fuel);
    let env = env1(vn);
    lemma_eval_params(defs, vn, vn, vn, f1);
    lemma_eval_ref(defs, CONSTANT, env, f1);
    lemma_eval_ref(defs, SECOND_OF, env, f1);
    lemma_eval_ref(defs, FIRST_OF, env, f1);
    lemma_saturate2(defs, CONSTANT, bool_value(false), vn, f1);
    lemma_eval_ap(defs, d(CONSTANT), d(SECOND_OF), env, f1, term_of(CONSTANT), bool_value(false));
    lemma_eval_ap2(defs, p(0), ap(d(CONSTANT), d(SECOND_OF)), d(FIRST_OF), env, f1, vn, cf, bool_value(true));
    lemma_zero_test(defs, n, f1);
    assert(eval(defs, call1(IS_ZERO, numeral_expr(n)), Bound::Empty, fuel) == Ok::<Value, EvalError>(bool_value(n == 0)));
}

/// Applying `g` to `f` and then to `x` yields `v` with some budget: how a
/// numeral or any other two-argument function behaves.
pub open spec fn applies2_to(defs: Seq<Definition>, g: Value, f: Value, x: Value, v: Value) -> bool {
    exists|fuel: nat| apply2(defs, g, f, x, fuel) == Ok::<Value, EvalError>(v)
}

/// `ys` lists the values met while applying `f` `k` times, from `x` to `v`.
pub open spec fn is_chain(defs: Seq<Definition>, f: Value, k: nat, x: Value, v: Value, ys: Seq<Value>) -> bool {
    &&& ys.len() == k + 1
    &&& ys[0] == x
    &&& ys[k as int] == v
    &&& forall|i: int| 0 <= i < k ==> #[trigger] applies_to(defs, f, ys[i], ys[i + 1])
}

/// `f` applied `k` times, starting from `x`, yields `v`.
pub open spec fn iterates(defs: Seq<Definition>, f: Value, k: nat, x: Value, v: Value) -> bool {
    exists|ys: Seq<Value>| #[trigger] is_chain(defs, f, k, x, v, ys)
}

proof fn lemma_iterates_zero(defs: Seq<Definition>, f: Value, x: Value, v: Value)
    ensures
        iterates(defs, f, 0, x, v) <==> v == x,
{
    if v == x {
        assert(is_chain(defs, f, 0, x, v, seq![x]));
    }
}

proof fn lemma_iterates_snoc(defs: Seq<Definition>, f: Value, k: nat, x: Value, y: Value, v: Value)
    requires
        iterates(defs, f, k, x, y),
        applies_to(defs, f, y, v),
    ensures
        iterates(defs, f, k + 1, x, v),
{
    let ys = choose|ys: Seq<Value>| #[trigger] is_chain(defs, f, k, x, y, ys);
    let zs = ys.push(v);
    assert forall|i: int| 0 <= i < k + 1 implies #[trigger] applies_to(defs, f, zs[i], zs[i + 1]) by {
        if i < k {
            assert(applies_to(defs, f, ys[i], ys[i + 1]));
        }
    }
    assert(is_chain(defs, f, k + 1, x, v, zs));
}

proof fn lemma_iterates_last(defs: Seq<Definition>, f: Value, k: nat, x: Value, v: Value) -> (y: Value)
    requires
        iterates(defs, f, k + 1, x, v),
    ensures
        iterates(defs, f, k, x, y),
        applies_to(defs, f, y, v),
{
    let ys = choose|ys: Seq<Value>| #[trigger] is_chain(defs, f, k + 1, x, v, ys);
    let zs = ys.drop_last();
    assert forall|i: int| 0 <= i < k implies #[trigger] applies_to(defs, f, zs[i], zs[i + 1]) by {
        assert(applies_to(defs, f, ys[i], ys[i + 1]));
    }
    assert(is_chain(defs, f, k, x, ys[k as int], zs));
    assert(applies_to(defs, f, ys[k as int], ys[k as int + 1]));
    ys[k as int]
}

/// Iterating `a` times and then `b` times is iterating `a + b` times.
proof fn lemma_iterates_join(defs: Seq<Definition>, f: Value, a: nat, b: nat, x: Value, y: Value, v: Value)
    requires
        iterates(defs, f, a, x, y),
        iterates(defs, f, b, y, v),
    ensures
        iterates(defs, f, a + b, x, v),
    decreases b,
{
    if b == 0 {
        lemma_iterates_zero(defs, f, y, v);
    } else {
        let c = (b - 1) as nat;
        let z = lemma_iterates_last(defs, f, c, y, v);
        lemma_iterates_join(defs, f, a, c, x, y, z);
        lemma_iterates_snoc(defs, f, a + c, x, z, v);
    }
}

/// Iterating `a + b` times passes through a value reached after `a` times.
proof fn lemma_iterates_cut(defs: Seq<Definition>, f: Value, a: nat, b: nat, x: Value, v: Value) -> (y: Value)
    requires
        iterates(defs, f, a + b, x, v),
    ensures
        iterates(defs, f, a, x, y),
        iterates(defs, f, b, y, v),
    decreases b,
{
    if b == 0 {
        lemma_iterates_zero(defs, f, v, v);
        v
    } else {
        let c = (b - 1) as nat;
        assert(a + b == (a + c) + 1);
        let z = lemma_iterates_last(defs, f, a + c, x, v);
        let y = lemma_iterates_cut(defs, f, a, c, x, z);
        lemma_iterates_snoc(defs, f, c, y, z, v);
        y
    }
}

/// The value of the numeral `n` applied to `f` alone.
pub open spec fn numeral_applied(n: nat, f: Value) -> Value {
    if n == 0 {
        term_of(IDENTITY)
    } else {
        Value::Partial { def: SUCCESSOR, bound: env2(numeral((n - 1) as nat), f) }
    }
}

proof fn lemma_apply2_more_fuel(defs: Seq<Definition>, g: Value, f: Value, x: Value, fuel: nat, more: nat)
    requires
        fuel <= more,
        apply2(defs, g, f, x, fuel) is Ok,
    ensures
        apply2(defs, g, f, x, more) == apply2(defs, g, f, x, fuel),
{
    lemma_apply_more_fuel(defs, g, f, fuel, more);
    let h = apply(defs, g, f, fuel)->Ok_0;
    lemma_apply_more_fuel(defs, h, x, fuel, more);
}

/// The numeral `n` applied to `f` is `numeral_applied(n, f)`, and applying
/// that to a value needs budget.
proof fn lemma_numeral_applied(defs: Seq<Definition>, n: nat, f: Value, y: Value, fuel: nat)
    requires
        extends_standard(defs),
    ensures
        fuel >= 1 ==> apply(defs, numeral(n), f, fuel) == Ok::<Value, EvalError>(numeral_applied(n, f)),
        apply(defs, numeral(n), f, fuel) is Ok ==> apply(defs, numeral(n), f, fuel) == Ok::<Value, EvalError>(numeral_applied(n, f)),
        apply(defs, numeral_applied(n, f), y, 0) == Err::<Value, EvalError>(EvalError::NonTermination),
        fuel >= 1 ==> apply2(defs, numeral(n), f, y, fuel) == apply(defs, numeral_applied(n, f), y, fuel),
{
    lemma_env_args(f, f, f);
    if n == 0 {
        lemma_saturate1(defs, SECOND_OF, f, fuel);
        if fuel >= 1 {
            lemma_eval_ref(defs, IDENTITY, env1(f), (fuel - 1) as nat);
        }
    } else {
        let k = (n - 1) as nat;
        lemma_saturate3(defs, SUCCESSOR, numeral(k), f, y, fuel);
        lemma_env_args(numeral(k), f, y);
    }
}

/// The numeral `k + 1` applied to `f` and `x` applies `f` to what the
/// numeral `k` gives, one step down.
proof fn lemma_successor_step(defs: Seq<Definition>, k: nat, f: Value, x: Value, fuel: nat)
    requires
        extends_standard(defs),
    ensures
        fuel == 0 ==> apply2(defs, numeral(k + 1), f, x, fuel) is Err,
        fuel >= 1 ==> apply2(defs, numeral(k + 1), f, x, fuel) == match apply2(defs, numeral(k), f, x, (fuel - 1) as nat) {
            Ok(y) => apply(defs, f, y, (fuel - 1) as nat),
            Err(err) => Err(err),
        },
{
    let mk = numeral(k);
    lemma_saturate3(defs, SUCCESSOR, mk, f, x, fuel);
    lemma_env_args(mk, f, x);
    if fuel >= 1 {
        let f1 = (fuel - 1) as nat;
        let env = env3(mk, f, x);
        lemma_eval_params(defs, mk, f, x, f1);
        lemma_eval_ap2(defs, p(0), p(1), p(2), env, f1, mk, f, x);
        if let Ok(y) = apply2(defs, mk, f, x, f1) {
            lemma_eval_ap(defs, p(1), ap(ap(p(0), p(1)), p(2)), env, f1, f, y);
        } else {
            reveal_with_fuel(eval, 2);
        }
    }
}

/// The numeral zero applied to `f` and `x` gives `x`.
proof fn lemma_zero_step(defs: Seq<Definition>, f: Value, x: Value, fuel: nat)
    requires
        extends_standard(defs),
    ensures
        fuel == 0 ==> apply2(defs, numeral(0), f, x, fuel) is Err,
        fuel >= 1 ==> apply2(defs, numeral(0), f, x, fuel) == Ok::<Value, EvalError>(x),
{
    lemma_numeral_applied(defs, 0, f, x, fuel);
    lemma_saturate1(defs, IDENTITY, x, fuel);
    lemma_env_args(x, x, x);
    if fuel >= 1 {
        lemma_eval_params(defs, x, x, x, (fuel - 1) as nat);
    }
}

/// A numeral behaves as iteration: the numeral `k` applied to `f` and `x`
/// yields `v` exactly when `f` applied `k` times to `x` does.
pub proof fn lemma_numeral_iterates(defs: Seq<Definition>, k: nat, f: Value, x: Value, v: Value)
    requires
        extends_standard(defs),
    ensures
        applies2_to(defs, numeral(k), f, x, v) <==> iterates(defs, f, k, x, v),
    decreases k,
{
    if k == 0 {
        lemma_iterates_zero(defs, f, x, v);
        if applies2_to(defs, numeral(k), f, x, v) {
            let n = choose|n: nat| apply2(defs, numeral(k), f, x, n) == Ok::<Value, EvalError>(v);
            lemma_zero_step(defs, f, x, n);
        }
        if v == x {
            lemma_zero_step(defs, f, x, 1);
            assert(apply2(defs, numeral(k), f, x, 1) == Ok::<Value, EvalError>(v));
        }
    } else {
        let j = (k - 1) as nat;
        assert(numeral(k) == numeral(j + 1));
        if applies2_to(defs, numeral(k), f, x, v) {
            let n = choose|n: nat| apply2(defs, numeral(k), f, x, n) == Ok::<Value, EvalError>(v);
            lemma_successor_step(defs, j, f, x, n);
            let y = apply2(defs, numeral(j), f, x, (n - 1) as nat)->Ok_0;
            lemma_numeral_iterates(defs, j, f, x, y);
            assert(apply2(defs, numeral(j), f, x, (n - 1) as nat) == Ok::<Value, EvalError>(y));
            assert(apply(defs, f, y, (n - 1) as nat) == Ok::<Value, EvalError>(v));
            lemma_iterates_snoc(defs, f, j, x, y, v);
        }
        if iterates(defs, f, k, x, v) {
            let y = lemma_iterates_last(defs, f, j, x, v);
            lemma_numeral_iterates(defs, j, f, x, y);
            let n1 = choose|n: nat| apply2(defs, numeral(j), f, x, n) == Ok::<Value, EvalError>(y);
            let n2 = choose|n: nat| apply(defs, f, y, n) == Ok::<Value, EvalError>(v);
            let n = if n1 >= n2 { n1 } else { n2 };
            lemma_apply2_more_fuel(defs, numeral(j), f, x, n1, n);
            lemma_apply_more_fuel(defs, f, y, n2, n);
            lemma_successor_step(defs, j, f, x, n + 1);
            assert(apply2(defs, numeral(k), f, x, n + 1) == Ok::<Value, EvalError>(v));
        }
    }
}

/// Iterating `m` times a function that does `n` steps of `f` does `m * n`
/// steps of `f`.
proof fn lemma_iterates_scale(defs: Seq<Definition>, g: Value, f: Value, m: nat, n: nat, x: Value, v: Value)
    requires
        forall|y: Value, w: Value| #[trigger] applies_to(defs, g, y, w) <==> iterates(defs, f, n, y, w),
    ensures
        iterates(defs, g, m, x, v) <==> iterates(defs, f, m * n, x, v),
    decreases m,
{
    if m == 0 {
        assert(m * n == 0) by (nonlinear_arith)
            requires
                m == 0,
        ;
        lemma_iterates_zero(defs, g, x, v);
        lemma_iterates_zero(defs, f, x, v);
    } else {
        let j = (m - 1) as nat;
        assert(m * n == j * n + n) by (nonlinear_arith)
            requires
                j == m - 1,
        ;
        if iterates(defs, g, m, x, v) {
            let y = lemma_iterates_last(defs, g, j, x, v);
            lemma_iterates_scale(defs, g, f, j, n, x, y);
            assert(iterates(defs, f, n, y, v));
            lemma_iterates_join(defs, f, j * n, n, x, y, v);
        }
        if iterates(defs, f, m * n, x, v) {
            let y = lemma_iterates_cut(defs, f, j * n, n, x, v);
            lemma_iterates_scale(defs, g, f, j, n, x, y);
            assert(applies_to(defs, g, y, v));
            lemma_iterates_snoc(defs, g, j, x, y, v);
        }
    }
}

/// The numeral `n` applied to `f` gives a function that does `n` steps of `f`.
proof fn lemma_numeral_applied_iterates(defs: Seq<Definition>, n: nat, f: Value)
    requires
        extends_standard(defs),
    ensures
        forall|y: Value, w: Value| #[trigger] applies_to(defs, numeral_applied(n, f), y, w) <==> iterates(defs, f, n, y, w),
{
    let g = numeral_applied(n, f);
    assert forall|y: Value, w: Value| #[trigger] applies_to(defs, g, y, w) <==> iterates(defs, f, n, y, w) by {
        lemma_numeral_iterates(defs, n, f, y, w);
        if applies_to(defs, g, y, w) {
            let k = choose|k: nat| apply(defs, g, y, k) == Ok::<Value, EvalError>(w);
            lemma_numeral_applied(defs, n, f, y, k);
            assert(apply2(defs, numeral(n), f, y, k) == Ok::<Value, EvalError>(w));
        }
        if applies2_to(defs, numeral(n), f, y, w) {
            let k = choose|k: nat| apply2(defs, numeral(n), f, y, k) == Ok::<Value, EvalError>(w);
            lemma_numeral_applied(defs, n, f, y, k);
            if k == 0 {
                lemma_numeral_applied(defs, n, f, y, 0);
            }
            assert(apply(defs, g, y, k) == Ok::<Value, EvalError>(w));
        }
    }
}

/// `multiply(m, n)` behaves as the numeral `m * n`: applied to any `f` and
/// `x`, it yields `v` exactly when `successor` applied `m * n` times to zero
/// does.
pub proof fn law_multiply(defs: Seq<Definition>, m: nat, n: nat, f: Value, x: Value, v: Value)
    requires
        extends_standard(defs),
    ensures
        resolves_to(defs, call2(MULTIPLY, numeral_expr(m), numeral_expr(n)), composed(numeral(m), numeral(n))),
        applies2_to(defs, composed(numeral(m), numeral(n)), f, x, v) <==> applies2_to(defs, numeral(m * n), f, x, v),
{
    let (vm, vn) = (numeral(m), numeral(n));
    // the product is the composition of the two numerals
    lemma_numeral_expr(defs, m, 2);
    lemma_numeral_expr(defs, n, 2);
    lemma_eval_ref(defs, MULTIPLY, Bound::Empty, 2);
    lemma_eval_ap2(defs, d(MULTIPLY), numeral_expr(m), numeral_expr(n), Bound::Empty, 2, term_of(MULTIPLY), vm, vn);
    lemma_saturate2(defs, MULTIPLY, vm, vn, 2);
    lemma_eval_params(defs, vm, vn, vn, 1);
    lemma_eval_ref(defs, COMPOSED, env2(vm, vn), 1);
    lemma_eval_ap2(defs, d(COMPOSED), p(0), p(1), env2(vm, vn), 1, term_of(COMPOSED), vm, vn);
    lemma_saturate3(defs, COMPOSED, vm, vn, vn, 1);
    assert(eval(defs, call2(MULTIPLY, numeral_expr(m), numeral_expr(n)), Bound::Empty, 2) == Ok::<Value, EvalError>(composed(vm, vn)));
    // its behaviour
    let gn = numeral_applied(n, f);
    let gm = numeral_applied(m, gn);
    lemma_numeral_applied_iterates(defs, n, f);
    lemma_numeral_applied_iterates(defs, m, gn);
    lemma_iterates_scale(defs, gn, f, m, n, x, v);
    lemma_numeral_iterates(defs, m * n, f, x, v);
    let c = composed(vm, vn);
    if applies2_to(defs, c, f, x, v) {
        let k = choose|k: nat| apply2(defs, c, f, x, k) == Ok::<Value, EvalError>(v);
        lemma_composed(defs, vm, vn, f, k);
        lemma_numeral_applied(defs, n, f, x, (k - 1) as nat);
        lemma_numeral_applied(defs, m, gn, x, (k - 1) as nat);
        assert(apply(defs, gm, x, k) == Ok::<Value, EvalError>(v));
        assert(applies_to(defs, gm, x, v));
    }
    if applies_to(defs, gm, x, v) {
        let k0 = choose|k: nat| apply(defs, gm, x, k) == Ok::<Value, EvalError>(v);
        let k = if k0 >= 2 { k0 } else { 2 };
        lemma_apply_more_fuel(defs, gm, x, k0, k);
        lemma_composed(defs, vm, vn, f, k);
        lemma_numeral_applied(defs, n, f, x, (k - 1) as nat);
        lemma_numeral_applied(defs, m, gn, x, (k - 1) as nat);
        assert(apply2(defs, c, f, x, k) == Ok::<Value, EvalError>(v));
    }
}

/// `m` to the power `n`.
pub open spec fn power(m: nat, n: nat) -> nat
    decreases n,
{
    if n == 0 {
        1
    } else {
        m * power(m, (n - 1) as nat)
    }
}

/// The numeral `m` applied `k` times, starting from `f`.
pub open spec fn tower(m: nat, k: nat, f: Value) -> Value
    decreases k,
{
    if k == 0 {
        f
    } else {
        numeral_applied(m, tower(m, (k - 1) as nat, f))
    }
}

proof fn lemma_iterates_one(defs: Seq<Definition>, f: Value, y: Value, w: Value)
    ensures
        applies_to(defs, f, y, w) <==> iterates(defs, f, 1, y, w),
{
    lemma_iterates_zero(defs, f, y, y);
    if applies_to(defs, f, y, w) {
        lemma_iterates_snoc(defs, f, 0, y, y, w);
    }
    if iterates(defs, f, 1, y, w) {
        let z = lemma_iterates_last(defs, f, 0, y, w);
        lemma_iterates_zero(defs, f, y, z);
    }
}

/// Applying the numeral `m` to a value always succeeds, with the value
/// `numeral_applied`.
proof fn lemma_numeral_applies(defs: Seq<Definition>, m: nat, g: Value)
    requires
        extends_standard(defs),
    ensures
        applies_to(defs, numeral(m), g, numeral_applied(m, g)),
{
    lemma_numeral_applied(defs, m, g, g, 1);
}

/// `tower(m, k, f)` is what the numeral `m` applied `k` times to `f` gives,
/// and the only value it gives.
proof fn lemma_tower_iterates(defs: Seq<Definition>, m: nat, k: nat, f: Value, h: Value)
    requires
        extends_standard(defs),
    ensures
        iterates(defs, numeral(m), k, f, tower(m, k, f)),
        iterates(defs, numeral(m), k, f, h) ==> h == tower(m, k, f),
    decreases k,
{
    let vm = numeral(m);
    if k == 0 {
        lemma_iterates_zero(defs, vm, f, f);
        lemma_iterates_zero(defs, vm, f, h);
    } else {
        let j = (k - 1) as nat;
        let t = tower(m, j, f);
        lemma_tower_iterates(defs, m, j, f, t);
        lemma_numeral_applies(defs, m, t);
        lemma_iterates_snoc(defs, vm, j, f, t, tower(m, k, f));
        if iterates(defs, vm, k, f, h) {
            let y = lemma_iterates_last(defs, vm, j, f, h);
            lemma_tower_iterates(defs, m, j, f, y);
            lemma_applies_to_unique(defs, vm, t, h, numeral_applied(m, t));
        }
    }
}

/// `tower(m, k, f)` does `m` to the power `k` steps of `f`.
proof fn lemma_tower_behaviour(defs: Seq<Definition>, m: nat, k: nat, f: Value)
    requires
        extends_standard(defs),
    ensures
        forall|y: Value, w: Value| #[trigger] applies_to(defs, tower(m, k, f), y, w) <==> iterates(defs, f, power(m, k), y, w),
    decreases k,
{
    if k == 0 {
        assert forall|y: Value, w: Value| #[trigger] applies_to(defs, tower(m, k, f), y, w) <==> iterates(defs, f, power(m, k), y, w) by {
            lemma_iterates_one(defs, f, y, w);
        }
    } else {
        let j = (k - 1) as nat;
        let t = tower(m, j, f);
        lemma_tower_behaviour(defs, m, j, f);
        lemma_numeral_applied_iterates(defs, m, t);
        assert forall|y: Value, w: Value| #[trigger] applies_to(defs, tower(m, k, f), y, w) <==> iterates(defs, f, power(m, k), y, w) by {
            lemma_iterates_scale(defs, t, f, m, power(m, j), y, w);
        }
    }
}

/// `exponent(m, n)` behaves as the numeral `m` to the power `n`: applied to
/// any `f` and `x`, it yields `v` exactly when that numeral does.
pub proof fn law_exponent(defs: Seq<Definition>, m: nat, n: nat, f: Value, x: Value, v: Value)
    requires
        extends_standard(defs),
    ensures
        resolves_to(defs, call2(EXPONENT, numeral_expr(m), numeral_expr(n)), numeral_applied(n, numeral(m))),
        applies2_to(defs, numeral_applied(n, numeral(m)), f, x, v) <==> applies2_to(defs, numeral(power(m, n)), f, x, v),
{
    let (vm, vn) = (numeral(m), numeral(n));
    let e = numeral_applied(n, vm);
    // the power is the exponent applied to the base
    lemma_numeral_expr(defs, m, 2);
    lemma_numeral_expr(defs, n, 2);
    lemma_eval_ref(defs, EXPONENT, Bound::Empty, 2);
    lemma_eval_ap2(defs, d(EXPONENT), numeral_expr(m), numeral_expr(n), Bound::Empty, 2, term_of(EXPONENT), vm, vn);
    lemma_saturate2(defs, EXPONENT, vm, vn, 2);
    lemma_eval_params(defs, vm, vn, vn, 1);
    lemma_eval_ap(defs, p(1), p(0), env2(vm, vn), 1, vn, vm);
    lemma_numeral_applied(defs, n, vm, x, 1);
    assert(eval(defs, call2(EXPONENT, numeral_expr(m), numeral_expr(n)), Bound::Empty, 2) == Ok::<Value, EvalError>(e));
    // its behaviour
    let t = tower(m, n, f);
    lemma_numeral_applied_iterates(defs, n, vm);
    lemma_tower_behaviour(defs, m, n, f);
    lemma_tower_iterates(defs, m, n, f, t);
    lemma_numeral_iterates(defs, power(m, n), f, x, v);
    if applies2_to(defs, e, f, x, v) {
        let k = choose|k: nat| apply2(defs, e, f, x, k) == Ok::<Value, EvalError>(v);
        let h = apply(defs, e, f, k)->Ok_0;
        assert(apply(defs, e, f, k) == Ok::<Value, EvalError>(h));
        assert(applies_to(defs, e, f, h));
        lemma_tower_iterates(defs, m, n, f, h);
        assert(apply(defs, h, x, k) == Ok::<Value, EvalError>(v));
        assert(applies_to(defs, t, x, v));
    }
    if applies2_to(defs, numeral(power(m, n)), f, x, v) {
        assert(applies_to(defs, t, x, v));
        assert(applies_to(defs, e, f, t));
        let k1 = choose|k: nat| apply(defs, e, f, k) == Ok::<Value, EvalError>(t);
        let k2 = choose|k: nat| apply(defs, t, x, k) == Ok::<Value, EvalError>(v);
        let k = if k1 >= k2 { k1 } else { k2 };
        lemma_apply_more_fuel(defs, e, f, k1, k);
        lemma_apply_more_fuel(defs, t, x, k2, k);
        assert(apply2(defs, e, f, x, k) == Ok::<Value, EvalError>(v));
    }
}

/// `g` behaves as the numeral `k`: applied to any `f` and `x`, it yields
/// what `f` applied `k` times to `x` yields.
pub open spec fn behaves_as(defs: Seq<Definition>, g: Value, k: nat) -> bool {
    forall|f: Value, x: Value, v: Value| #[trigger] applies2_to(defs, g, f, x, v) <==> iterates(defs, f, k, x, v)
}

/// The value of `predecessor(g)`.
pub open spec fn predecessor_of(g: Value) -> Value {
    Value::Partial { def: PREDECESSOR, bound: env1(g) }
}

/// The value of `subtract(g, numeral(n))`: `predecessor` applied `n` times to `g`.
pub open spec fn difference(g: Value, n: nat) -> Value
    decreases n,
{
    if n == 0 {
        g
    } else {
        predecessor_of(difference(g, (n - 1) as nat))
    }
}

/// What the predecessor builds after `j` steps: `Constant(x)`, then one
/// `PredStep` layer per step.
pub open spec fn container(f: Value, x: Value, j: nat) -> Value
    decreases j,
{
    if j == 0 {
        Value::Partial { def: CONSTANT, bound: env1(x) }
    } else {
        Value::Partial { def: PRED_STEP, bound: env2(f, container(f, x, (j - 1) as nat)) }
    }
}

/// `m - n`, or zero where `n` is larger.
pub open spec fn monus(m: nat, n: nat) -> nat {
    if m >= n { (m - n) as nat } else { 0 }
}

/// `PredStep(f, c)` applied to `h` is `h(c(f))`.
proof fn lemma_pred_step(defs: Seq<Definition>, f: Value, c: Value, h: Value, w: Value)
    requires
        extends_standard(defs),
    ensures
        applies_to(defs, Value::Partial { def: PRED_STEP, bound: env2(f, c) }, h, w)
            <==> exists|z: Value| #[trigger] applies_to(defs, c, f, z) && applies_to(defs, h, z, w),
        forall|n: nat| #[trigger] apply(defs, Value::Partial { def: PRED_STEP, bound: env1(f) }, c, n)
            == Ok::<Value, EvalError>(Value::Partial { def: PRED_STEP, bound: env2(f, c) }),
{
    let ps = Value::Partial { def: PRED_STEP, bound: env2(f, c) };
    assert forall|n: nat| #[trigger] apply(defs, Value::Partial { def: PRED_STEP, bound: env1(f) }, c, n)
        == Ok::<Value, EvalError>(Value::Partial { def: PRED_STEP, bound: env2(f, c) }) by {
        lemma_saturate3(defs, PRED_STEP, f, c, h, n);
    }
    if applies_to(defs, ps, h, w) {
        let n = choose|n: nat| apply(defs, ps, h, n) == Ok::<Value, EvalError>(w);
        lemma_saturate3(defs, PRED_STEP, f, c, h, n);
        lemma_env_args(f, c, h);
        let n1 = (n - 1) as nat;
        lemma_eval_params(defs, f, c, h, n1);
        let env = env3(f, c, h);
        lemma_eval_ap(defs, p(1), p(0), env, n1, c, f);
        if let Ok(z) = apply(defs, c, f, n1) {
            lemma_eval_ap(defs, p(2), ap(p(1), p(0)), env, n1, h, z);
            assert(applies_to(defs, c, f, z) && applies_to(defs, h, z, w));
        } else {
            reveal_with_fuel(eval, 2);
        }
    }
    if exists|z: Value| #[trigger] applies_to(defs, c, f, z) && applies_to(defs, h, z, w) {
        let z = choose|z: Value| #[trigger] applies_to(defs, c, f, z) && applies_to(defs, h, z, w);
        let n1 = choose|n: nat| apply(defs, c, f, n) == Ok::<Value, EvalError>(z);
        let n2 = choose|n: nat| apply(defs, h, z, n) == Ok::<Value, EvalError>(w);
        let n = if n1 >= n2 { n1 } else { n2 };
        lemma_apply_more_fuel(defs, c, f, n1, n);
        lemma_apply_more_fuel(defs, h, z, n2, n);
        lemma_saturate3(defs, PRED_STEP, f, c, h, n + 1);
        let env = env3(f, c, h);
        lemma_eval_params(defs, f, c, h, n);
        lemma_eval_ap(defs, p(1), p(0), env, n, c, f);
        lemma_eval_ap(defs, p(2), ap(p(1), p(0)), env, n, h, z);
        assert(apply(defs, ps, h, n + 1) == Ok::<Value, EvalError>(w));
    }
}

/// The container after `j` steps, applied to `f`, does `j` steps of `f` from `x`.
proof fn lemma_container_behaviour(defs: Seq<Definition>, f: Value, x: Value, j: nat, y: Value)
    requires
        extends_standard(defs),
    ensures
        applies_to(defs, container(f, x, j), f, y) <==> iterates(defs, f, j, x, y),
    decreases j,
{
    if j == 0 {
        lemma_iterates_zero(defs, f, x, y);
        let c0 = container(f, x, 0);
        if applies_to(defs, c0, f, y) {
            let n = choose|n: nat| apply(defs, c0, f, n) == Ok::<Value, EvalError>(y);
            lemma_env_args(x, f, f);
            if n >= 1 {
                lemma_constant(defs, x, f, n);
            }
        }
        if y == x {
            lemma_constant(defs, x, f, 1);
            assert(apply(defs, c0, f, 1) == Ok::<Value, EvalError>(y));
        }
    } else {
        let i = (j - 1) as nat;
        let c = container(f, x, i);
        lemma_pred_step(defs, f, c, f, y);
        if applies_to(defs, container(f, x, j), f, y) {
            let z = choose|z: Value| #[trigger] applies_to(defs, c, f, z) && applies_to(defs, f, z, y);
            lemma_container_behaviour(defs, f, x, i, z);
            lemma_iterates_snoc(defs, f, i, x, z, y);
        }
        if iterates(defs, f, j, x, y) {
            let z = lemma_iterates_last(defs, f, i, x, y);
            lemma_container_behaviour(defs, f, x, i, z);
            assert(applies_to(defs, c, f, z) && applies_to(defs, f, z, y));
        }
    }
}

/// The container after `j` steps, applied to the identity, does `j - 1`
/// steps of `f` from `x`, or none when `j` is zero.
proof fn lemma_container_identity(defs: Seq<Definition>, f: Value, x: Value, j: nat, w: Value)
    requires
        extends_standard(defs),
    ensures
        applies_to(defs, container(f, x, j), term_of(IDENTITY), w) <==> iterates(defs, f, monus(j, 1), x, w),
{
    let id = term_of(IDENTITY);
    lemma_iterates_zero(defs, f, x, w);
    assert forall|z: Value, k: nat| k >= 1 implies #[trigger] apply(defs, id, z, k) == Ok::<Value, EvalError>(z) by {
        lemma_saturate1(defs, IDENTITY, z, k);
        lemma_eval_params(defs, z, z, z, (k - 1) as nat);
    }
    assert forall|z: Value| #[trigger] applies_to(defs, id, z, w) <==> z == w by {
        if applies_to(defs, id, z, w) {
            let k = choose|k: nat| apply(defs, id, z, k) == Ok::<Value, EvalError>(w);
            lemma_saturate1(defs, IDENTITY, z, k);
            lemma_env_args(z, z, z);
        }
        if z == w {
            assert(apply(defs, id, z, 1) == Ok::<Value, EvalError>(w));
        }
    }
    if j == 0 {
        let c0 = container(f, x, 0);
        if applies_to(defs, c0, id, w) {
            let n = choose|n: nat| apply(defs, c0, id, n) == Ok::<Value, EvalError>(w);
            lemma_env_args(x, id, id);
            if n >= 1 {
                lemma_constant(defs, x, id, n);
            }
        }
        if w == x {
            lemma_constant(defs, x, id, 1);
            assert(apply(defs, c0, id, 1) == Ok::<Value, EvalError>(w));
        }
    } else {
        let i = (j - 1) as nat;
        let c = container(f, x, i);
        lemma_pred_step(defs, f, c, id, w);
        lemma_container_behaviour(defs, f, x, i, w);
        if applies_to(defs, container(f, x, j), id, w) {
            let z = choose|z: Value| #[trigger] applies_to(defs, c, f, z) && applies_to(defs, id, z, w);
            assert(z == w);
        }
        if iterates(defs, f, i, x, w) {
            assert(applies_to(defs, c, f, w) && applies_to(defs, id, w, w));
        }
    }
}

/// Stepping `PredStep(f)` from `Constant(x)` reaches the containers, and
/// only them.
proof fn lemma_containers_iterate(defs: Seq<Definition>, f: Value, x: Value, k: nat, c: Value)
    requires
        extends_standard(defs),
    ensures
        iterates(defs, Value::Partial { def: PRED_STEP, bound: env1(f) }, k, container(f, x, 0), container(f, x, k)),
        iterates(defs, Value::Partial { def: PRED_STEP, bound: env1(f) }, k, container(f, x, 0), c) ==> c == container(f, x, k),
    decreases k,
{
    let ps = Value::Partial { def: PRED_STEP, bound: env1(f) };
    let c0 = container(f, x, 0);
    if k == 0 {
        lemma_iterates_zero(defs, ps, c0, c0);
        lemma_iterates_zero(defs, ps, c0, c);
    } else {
        let j = (k - 1) as nat;
        let prev = container(f, x, j);
        lemma_containers_iterate(defs, f, x, j, prev);
        lemma_pred_step(defs, f, prev, f, f);
        assert(apply(defs, ps, prev, 0) == Ok::<Value, EvalError>(container(f, x, k)));
        lemma_iterates_snoc(defs, ps, j, c0, prev, container(f, x, k));
        if iterates(defs, ps, k, c0, c) {
            let y = lemma_iterates_last(defs, ps, j, c0, c);
            lemma_containers_iterate(defs, f, x, j, y);
            lemma_applies_to_unique(defs, ps, prev, c, container(f, x, k));
        }
    }
}

spec fn predecessor_body(defs: Seq<Definition>, g: Value, f: Value, x: Value, n: nat) -> Result<Value, EvalError> {
    match apply2(defs, g, Value::Partial { def: PRED_STEP, bound: env1(f) }, container(f, x, 0), n) {
        Ok(c) => apply(defs, c, term_of(IDENTITY), n),
        Err(err) => Err(err),
    }
}

/// `predecessor(g)` applied to `f` and `x` runs `g` on `PredStep(f)` and
/// `Constant(x)`, then applies the result to the identity.
proof fn lemma_predecessor_apply(defs: Seq<Definition>, g: Value, f: Value, x: Value, v: Value)
    requires
        extends_standard(defs),
    ensures
        applies2_to(defs, predecessor_of(g), f, x, v) <==> exists|c: Value| #[trigger] applies2_to(
            defs,
            g,
            Value::Partial { def: PRED_STEP, bound: env1(f) },
            container(f, x, 0),
            c,
        ) && applies_to(defs, c, term_of(IDENTITY), v),
{
    let ps = Value::Partial { def: PRED_STEP, bound: env1(f) };
    let cx = container(f, x, 0);
    let id = term_of(IDENTITY);
    let pg = predecessor_of(g);
    assert forall|n: nat| #[trigger] apply2(defs, pg, f, x, n) == (if n == 0 {
        Err::<Value, EvalError>(EvalError::NonTermination)
    } else {
        predecessor_body(defs, g, f, x, (n - 1) as nat)
    }) by {
        lemma_saturate3(defs, PREDECESSOR, g, f, x, n);
        lemma_env_args(g, f, x);
        if n >= 1 {
            let n1 = (n - 1) as nat;
            let env = env3(g, f, x);
            lemma_eval_params(defs, g, f, x, n1);
            lemma_eval_ref(defs, PRED_STEP, env, n1);
            lemma_eval_ref(defs, CONSTANT, env, n1);
            lemma_eval_ref(defs, IDENTITY, env, n1);
            lemma_saturate3(defs, PRED_STEP, f, f, f, n1);
            lemma_saturate2(defs, CONSTANT, x, x, n1);
            lemma_eval_ap(defs, d(PRED_STEP), p(1), env, n1, term_of(PRED_STEP), f);
            lemma_eval_ap(defs, d(CONSTANT), p(2), env, n1, term_of(CONSTANT), x);
            lemma_eval_ap2(defs, p(0), ap(d(PRED_STEP), p(1)), ap(d(CONSTANT), p(2)), env, n1, g, ps, cx);
            if let Ok(c) = apply2(defs, g, ps, cx, n1) {
                lemma_eval_ap(defs, ap(ap(p(0), ap(d(PRED_STEP), p(1))), ap(d(CONSTANT), p(2))), d(IDENTITY), env, n1, c, id);
            } else {
                reveal_with_fuel(eval, 2);
            }
        }
    }
    if applies2_to(defs, pg, f, x, v) {
        let n = choose|n: nat| apply2(defs, pg, f, x, n) == Ok::<Value, EvalError>(v);
        let n1 = (n - 1) as nat;
        let c = apply2(defs, g, ps, cx, n1)->Ok_0;
        assert(apply2(defs, g, ps, cx, n1) == Ok::<Value, EvalError>(c));
        assert(applies2_to(defs, g, ps, cx, c) && applies_to(defs, c, id, v));
    }
    if exists|c: Value| #[trigger] applies2_to(defs, g, ps, cx, c) && applies_to(defs, c, id, v) {
        let c = choose|c: Value| #[trigger] applies2_to(defs, g, ps, cx, c) && applies_to(defs, c, id, v);
        let n1 = choose|n: nat| apply2(defs, g, ps, cx, n) == Ok::<Value, EvalError>(c);
        let n2 = choose|n: nat| apply(defs, c, id, n) == Ok::<Value, EvalError>(v);
        let n = if n1 >= n2 { n1 } else { n2 };
        lemma_apply2_more_fuel(defs, g, ps, cx, n1, n);
        lemma_apply_more_fuel(defs, c, id, n2, n);
        assert(apply2(defs, pg, f, x, n + 1) == Ok::<Value, EvalError>(v));
    }
}

/// The predecessor of a value that behaves as `k` behaves as `k - 1`, or as
/// zero when `k` is zero.
pub proof fn lemma_predecessor_behaves(defs: Seq<Definition>, g: Value, k: nat)
    requires
        extends_standard(defs),
        behaves_as(defs, g, k),
    ensures
        behaves_as(defs, predecessor_of(g), monus(k, 1)),
{
    assert forall|f: Value, x: Value, v: Value| #[trigger] applies2_to(defs, predecessor_of(g), f, x, v)
        <==> iterates(defs, f, monus(k, 1), x, v) by {
        let ps = Value::Partial { def: PRED_STEP, bound: env1(f) };
        let cx = container(f, x, 0);
        let ck = container(f, x, k);
        let id = term_of(IDENTITY);
        lemma_predecessor_apply(defs, g, f, x, v);
        lemma_containers_iterate(defs, f, x, k, ck);
        lemma_container_identity(defs, f, x, k, v);
        if applies2_to(defs, predecessor_of(g), f, x, v) {
            let c = choose|c: Value| #[trigger] applies2_to(defs, g, ps, cx, c) && applies_to(defs, c, id, v);
            assert(iterates(defs, ps, k, cx, c));
            lemma_containers_iterate(defs, f, x, k, c);
        }
        if iterates(defs, f, monus(k, 1), x, v) {
            assert(applies2_to(defs, g, ps, cx, ck));
            assert(applies2_to(defs, g, ps, cx, ck) && applies_to(defs, ck, id, v));
        }
    }
}

/// `predecessor` applied `n` times to a value that behaves as `m` behaves
/// as `m - n`, or as zero.
proof fn lemma_difference_behaves(defs: Seq<Definition>, g: Value, m: nat, n: nat)
    requires
        extends_standard(defs),
        behaves_as(defs, g, m),
    ensures
        behaves_as(defs, difference(g, n), monus(m, n)),
    decreases n,
{
    if n > 0 {
        let j = (n - 1) as nat;
        lemma_difference_behaves(defs, g, m, j);
        lemma_predecessor_behaves(defs, difference(g, j), monus(m, j));
        assert(monus(monus(m, j), 1) == monus(m, n));
    }
}

/// A numeral behaves as its count.
proof fn lemma_numeral_behaves(defs: Seq<Definition>, k: nat)
    requires
        extends_standard(defs),
    ensures
        behaves_as(defs, numeral(k), k),
{
    assert forall|f: Value, x: Value, v: Value| #[trigger] applies2_to(defs, numeral(k), f, x, v)
        <==> iterates(defs, f, k, x, v) by {
        lemma_numeral_iterates(defs, k, f, x, v);
    }
}

/// `subtract(m, n)` resolves to `predecessor` applied `n` times to `m`, and
/// behaves as the numeral `m - n` (zero when `n` is larger).
pub proof fn law_subtract(defs: Seq<Definition>, m: nat, n: nat, f: Value, x: Value, v: Value)
    requires
        extends_standard(defs),
    ensures
        resolves_to(defs, call2(SUBTRACT, numeral_expr(m), numeral_expr(n)), difference(numeral(m), n)),
        applies2_to(defs, difference(numeral(m), n), f, x, v) <==> applies2_to(defs, numeral(monus(m, n)), f, x, v),
{
    let (vm, vn) = (numeral(m), numeral(n));
    let pred = term_of(PREDECESSOR);
    // `n` applied to the predecessor and `m` steps `n` times
    assert forall|y: Value, w: Value| #[trigger] applies_to(defs, pred, y, w) <==> w == predecessor_of(y) by {
        lemma_saturate3(defs, PREDECESSOR, y, y, y, 0);
        assert(apply(defs, pred, y, 0) == Ok::<Value, EvalError>(predecessor_of(y)));
        if applies_to(defs, pred, y, w) {
            lemma_applies_to_unique(defs, pred, y, w, predecessor_of(y));
        }
    }
    assert forall|k: nat| #[trigger] iterates(defs, pred, k, vm, difference(vm, k)) by {
        lemma_difference_iterates(defs, vm, k);
    }
    lemma_numeral_iterates(defs, n, pred, vm, difference(vm, n));
    let k0 = choose|k: nat| apply2(defs, vn, pred, vm, k) == Ok::<Value, EvalError>(difference(vm, n));
    let k = k0 + 3;
    lemma_apply2_more_fuel(defs, vn, pred, vm, k0, (k - 1) as nat);
    lemma_numeral_expr(defs, m, k);
    lemma_numeral_expr(defs, n, k);
    lemma_eval_ref(defs, SUBTRACT, Bound::Empty, k);
    lemma_eval_ap2(defs, d(SUBTRACT), numeral_expr(m), numeral_expr(n), Bound::Empty, k, term_of(SUBTRACT), vm, vn);
    lemma_saturate2(defs, SUBTRACT, vm, vn, k);
    let env = env2(vm, vn);
    lemma_eval_params(defs, vm, vn, vn, (k - 1) as nat);
    lemma_eval_ref(defs, PREDECESSOR, env, (k - 1) as nat);
    lemma_eval_ap2(defs, p(1), d(PREDECESSOR), p(0), env, (k - 1) as nat, vn, pred, vm);
    assert(eval(defs, call2(SUBTRACT, numeral_expr(m), numeral_expr(n)), Bound::Empty, k) == Ok::<Value, EvalError>(difference(vm, n)));
    // its behaviour
    lemma_numeral_behaves(defs, m);
    lemma_difference_behaves(defs, vm, m, n);
    lemma_numeral_iterates(defs, monus(m, n), f, x, v);
}

proof fn lemma_difference_iterates(defs: Seq<Definition>, g: Value, k: nat)
    requires
        extends_standard(defs),
    ensures
        iterates(defs, term_of(PREDECESSOR), k, g, difference(g, k)),
    decreases k,
{
    let pred = term_of(PREDECESSOR);
    if k == 0 {
        lemma_iterates_zero(defs, pred, g, g);
    } else {
        let j = (k - 1) as nat;
        lemma_difference_iterates(defs, g, j);
        lemma_saturate3(defs, PREDECESSOR, difference(g, j), g, g, 0);
        assert(apply(defs, pred, difference(g, j), 0) == Ok::<Value, EvalError>(difference(g, k)));
        lemma_iterates_snoc(defs, pred, j, g, difference(g, j), difference(g, k));
    }
}

/// `Constant(False)` applied `d` times to `True` gives whether `d` is zero.
proof fn lemma_iterates_constant_false(defs: Seq<Definition>, count: nat, v: Value)
    requires
        extends_standard(defs),
    ensures
        iterates(defs, Value::Partial { def: CONSTANT, bound: env1(bool_value(false)) }, count, bool_value(true), v)
            <==> v == bool_value(count == 0),
    decreases count,
{
    let cf = Value::Partial { def: CONSTANT, bound: env1(bool_value(false)) };
    let t = bool_value(true);
    assert forall|y: Value, w: Value| #[trigger] applies_to(defs, cf, y, w) <==> w == bool_value(false) by {
        lemma_constant(defs, bool_value(false), y, 1);
        if applies_to(defs, cf, y, w) {
            let k = choose|k: nat| apply(defs, cf, y, k) == Ok::<Value, EvalError>(w);
            lemma_env_args(bool_value(false), y, y);
            if k >= 1 {
                lemma_constant(defs, bool_value(false), y, k);
            }
        }
    }
    if count == 0 {
        lemma_iterates_zero(defs, cf, t, v);
    } else {
        let j = (count - 1) as nat;
        if iterates(defs, cf, count, t, v) {
            let y = lemma_iterates_last(defs, cf, j, t, v);
        }
        if v == bool_value(false) {
            lemma_iterates_constant_false(defs, j, bool_value(j == 0));
            assert(applies_to(defs, cf, bool_value(j == 0), v));
            lemma_iterates_snoc(defs, cf, j, t, bool_value(j == 0), v);
        }
    }
}

/// `is_zero` of a value that behaves as `d` gives whether `d` is zero.
proof fn lemma_is_zero_of(defs: Seq<Definition>, g: Value, count: nat)
    requires
        extends_standard(defs),
        behaves_as(defs, g, count),
    ensures
        applies_to(defs, term_of(IS_ZERO), g, bool_value(count == 0)),
{
    let cf = Value::Partial { def: CONSTANT, bound: env1(bool_value(false)) };
    let t = bool_value(true);
    lemma_iterates_constant_false(defs, count, bool_value(count == 0));
    assert(applies2_to(defs, g, cf, t, bool_value(count == 0)));
    let k = choose|k: nat| apply2(defs, g, cf, t, k) == Ok::<Value, EvalError>(bool_value(count == 0));
    let env = env1(g);
    lemma_saturate1(defs, IS_ZERO, g, k + 1);
    lemma_eval_params(defs, g, g, g, k);
    lemma_eval_ref(defs, CONSTANT, env, k);
    lemma_eval_ref(defs, SECOND_OF, env, k);
    lemma_eval_ref(defs, FIRST_OF, env, k);
    lemma_saturate2(defs, CONSTANT, bool_value(false), g, k);
    lemma_eval_ap(defs, d(CONSTANT), d(SECOND_OF), env, k, term_of(CONSTANT), bool_value(false));
    lemma_eval_ap2(defs, p(0), ap(d(CONSTANT), d(SECOND_OF)), d(FIRST_OF), env, k, g, cf, t);
    assert(apply(defs, term_of(IS_ZERO), g, k + 1) == Ok::<Value, EvalError>(bool_value(count == 0)));
}

/// `leq(m, n)` applied to numerals gives whether `m <= n`.
proof fn lemma_leq_of(defs: Seq<Definition>, m: nat, n: nat)
    requires
        extends_standard(defs),
    ensures
        applies2_to(defs, term_of(LEQ), numeral(m), numeral(n), bool_value(m <= n)),
{
    let (vm, vn) = (numeral(m), numeral(n));
    let pred = term_of(PREDECESSOR);
    let diff = difference(vm, n);
    // `subtract(m, n)` reaches the difference
    law_subtract(defs, m, n, vm, vm, vm);
    let k0 = choose|k: nat| eval(defs, call2(SUBTRACT, numeral_expr(m), numeral_expr(n)), Bound::Empty, k) == Ok::<Value, EvalError>(diff);
    lemma_numeral_expr(defs, m, k0);
    lemma_numeral_expr(defs, n, k0);
    lemma_eval_ref(defs, SUBTRACT, Bound::Empty, k0);
    lemma_eval_ap2(defs, d(SUBTRACT), numeral_expr(m), numeral_expr(n), Bound::Empty, k0, term_of(SUBTRACT), vm, vn);
    // `is_zero` of the difference
    lemma_numeral_behaves(defs, m);
    lemma_difference_behaves(defs, vm, m, n);
    lemma_is_zero_of(defs, diff, monus(m, n));
    let k1 = choose|k: nat| apply(defs, term_of(IS_ZERO), diff, k) == Ok::<Value, EvalError>(bool_value(monus(m, n) == 0));
    let k = if k0 >= k1 { k0 } else { k1 };
    lemma_apply2_more_fuel(defs, term_of(SUBTRACT), vm, vn, k0, k);
    lemma_apply_more_fuel(defs, term_of(IS_ZERO), diff, k1, k);
    // the body of `Leq`
    let env = env2(vm, vn);
    lemma_saturate2(defs, LEQ, vm, vn, k + 1);
    lemma_eval_params(defs, vm, vn, vn, k);
    lemma_eval_ref(defs, SUBTRACT, env, k);
    lemma_eval_ref(defs, IS_ZERO, env, k);
    lemma_eval_ap2(defs, d(SUBTRACT), p(0), p(1), env, k, term_of(SUBTRACT), vm, vn);
    lemma_eval_ap(defs, d(IS_ZERO), ap(ap(d(SUBTRACT), p(0)), p(1)), env, k, term_of(IS_ZERO), diff);
    assert(apply2(defs, term_of(LEQ), vm, vn, k + 1) == Ok::<Value, EvalError>(bool_value(m <= n)));
}

/// `equal(m, n)` resolves to the truthy value exactly when `m` and `n` were
/// built from the same number of successors, and to the falsy one otherwise.
pub proof fn law_equal(defs: Seq<Definition>, m: nat, n: nat)
    requires
        extends_standard(defs),
    ensures
        resolves_to(defs, call2(EQ, numeral_expr(m), numeral_expr(n)), bool_value(m == n)),
{
    let (vm, vn) = (numeral(m), numeral(n));
    let (a, b) = (bool_value(m <= n), bool_value(n <= m));
    lemma_leq_of(defs, m, n);
    lemma_leq_of(defs, n, m);
    let k0 = choose|k: nat| apply2(defs, term_of(LEQ), vm, vn, k) == Ok::<Value, EvalError>(a);
    let k1 = choose|k: nat| apply2(defs, term_of(LEQ), vn, vm, k) == Ok::<Value, EvalError>(b);
    let k = (if k0 >= k1 { k0 } else { k1 }) + 3;
    lemma_apply2_more_fuel(defs, term_of(LEQ), vm, vn, k0, k);
    lemma_apply2_more_fuel(defs, term_of(LEQ), vn, vm, k1, k);
    // the body of `Eq`
    let env = env2(vm, vn);
    lemma_eval_params(defs, vm, vn, vn, k);
    lemma_eval_ref(defs, LEQ, env, k);
    lemma_eval_ref(defs, AND, env, k);
    lemma_eval_ap2(defs, d(LEQ), p(0), p(1), env, k, term_of(LEQ), vm, vn);
    lemma_eval_ap2(defs, d(LEQ), p(1), p(0), env, k, term_of(LEQ), vn, vm);
    lemma_eval_ap2(defs, d(AND), ap(ap(d(LEQ), p(0)), p(1)), ap(ap(d(LEQ), p(1)), p(0)), env, k, term_of(AND), a, b);
    lemma_saturate2(defs, AND, a, b, k);
    lemma_eval_params(defs, a, b, b, (k - 1) as nat);
    lemma_eval_ap2(defs, p(0), p(1), p(0), env2(a, b), (k - 1) as nat, a, b, a);
    lemma_select(defs, m <= n, b, a, (k - 1) as nat);
    lemma_saturate2(defs, EQ, vm, vn, k + 1);
    // the call itself
    lemma_numeral_expr(defs, m, k + 1);
    lemma_numeral_expr(defs, n, k + 1);
    lemma_eval_ref(defs, EQ, Bound::Empty, k + 1);
    lemma_eval_ap2(defs, d(EQ), numeral_expr(m), numeral_expr(n), Bound::Empty, k + 1, term_of(EQ), vm, vn);
    assert(eval(defs, call2(EQ, numeral_expr(m), numeral_expr(n)), Bound::Empty, k + 1) == Ok::<Value, EvalError>(bool_value(m == n)));
}

} // verus!
