use vstd::prelude::*;
use crate::engine::{
    applies_to, apply, apply2, apply3, eval, lemma_apply_more_fuel, resolves_to, Definition, Expr,
};
use crate::library::{
    ap, bool_value, d, extends_standard, p, term_of, AND, COMPOSE, COMPOSED, CONSTANT, CURRIED,
    CURRY, FIRST, FIRST_OF, IDENTITY, IF, NIL, NOT, NULL, OR, PAIR, SECOND, SECOND_OF, XOR,
};
use crate::term::{Bound, EvalError, Value};

verus! {

/// The reference to the boolean definition for `b`.
pub open spec fn bool_expr(b: bool) -> Expr {
    d(if b { FIRST_OF } else { SECOND_OF })
}

/// `f(x, y)` as single-argument applications.
pub open spec fn call2(f: usize, x: Expr, y: Expr) -> Expr {
    ap(ap(d(f), x), y)
}

/// `f(x)`.
pub open spec fn call1(f: usize, x: Expr) -> Expr {
    ap(d(f), x)
}

/// `f(x, y, z)` as single-argument applications.
pub open spec fn call3(f: usize, x: Expr, y: Expr, z: Expr) -> Expr {
    ap(ap(ap(d(f), x), y), z)
}

/// The value of `compose(f, g)`.
pub open spec fn composed(f: Value, g: Value) -> Value {
    Value::Partial { def: COMPOSED, bound: env2(f, g) }
}

pub open spec fn env1(x: Value) -> Bound {
    Bound::Then(Box::new(Bound::Empty), Box::new(x))
}

pub open spec fn env2(x: Value, y: Value) -> Bound {
    Bound::Then(Box::new(env1(x)), Box::new(y))
}

pub open spec fn env3(x: Value, y: Value, z: Value) -> Bound {
    Bound::Then(Box::new(env2(x, y)), Box::new(z))
}

pub(crate) proof fn lemma_env_args(x: Value, y: Value, z: Value)
    ensures
        env1(x).args() == seq![x],
        env2(x, y).args() == seq![x, y],
        env3(x, y, z).args() == seq![x, y, z],
{
    reveal_with_fuel(Bound::args, 4);
    assert(env1(x).args() =~= seq![x]);
    assert(env2(x, y).args() =~= seq![x, y]);
    assert(env3(x, y, z).args() =~= seq![x, y, z]);
}

/// A one-parameter definition evaluates its body once applied.
pub(crate) proof fn lemma_saturate1(defs: Seq<Definition>, def: usize, x: Value, fuel: nat)
    requires
        def < defs.len(),
        defs[def as int].arity == 1,
    ensures
        fuel > 0 ==> apply(defs, term_of(def), x, fuel) == eval(defs, defs[def as int].body, env1(x), (fuel - 1) as nat),
{
    lemma_env_args(x, x, x);
}

/// A two-parameter definition binds its first argument and evaluates its
/// body with the second.
pub(crate) proof fn lemma_saturate2(defs: Seq<Definition>, def: usize, x: Value, y: Value, fuel: nat)
    requires
        def < defs.len(),
        defs[def as int].arity == 2,
    ensures
        apply(defs, term_of(def), x, fuel) == Ok::<Value, EvalError>(Value::Partial { def, bound: env1(x) }),
        fuel > 0 ==> apply2(defs, term_of(def), x, y, fuel) == eval(defs, defs[def as int].body, env2(x, y), (fuel - 1) as nat),
{
    lemma_env_args(x, y, y);
}

/// A three-parameter definition binds two arguments and evaluates its body
/// with the third.
pub(crate) proof fn lemma_saturate3(defs: Seq<Definition>, def: usize, x: Value, y: Value, z: Value, fuel: nat)
    requires
        def < defs.len(),
        defs[def as int].arity == 3,
    ensures
        apply(defs, term_of(def), x, fuel) == Ok::<Value, EvalError>(Value::Partial { def, bound: env1(x) }),
        apply2(defs, term_of(def), x, y, fuel) == Ok::<Value, EvalError>(Value::Partial { def, bound: env2(x, y) }),
        fuel > 0 ==> apply3(defs, term_of(def), x, y, z, fuel) == eval(defs, defs[def as int].body, env3(x, y, z), (fuel - 1) as nat),
{
    lemma_env_args(x, y, z);
}

/// A boolean applied to two values selects the first when truthy and the
/// second otherwise.
pub proof fn lemma_select(defs: Seq<Definition>, a: bool, x: Value, y: Value, fuel: nat)
    requires
        extends_standard(defs),
        fuel >= 2,
    ensures
        apply2(defs, bool_value(a), x, y, fuel) == Ok::<Value, EvalError>(if a { x } else { y }),
{
    lemma_env_args(x, y, y);
    let f1 = (fuel - 1) as nat;
    reveal_with_fuel(eval, 2);
    if a {
        lemma_saturate1(defs, FIRST_OF, x, fuel);
        lemma_saturate2(defs, CONSTANT, x, y, f1);
        lemma_saturate2(defs, CONSTANT, x, y, fuel);
        assert(eval(defs, d(CONSTANT), env1(x), f1) == Ok::<Value, EvalError>(term_of(CONSTANT)));
        assert(eval(defs, p(0), env1(x), f1) == Ok::<Value, EvalError>(x));
        assert(apply(defs, bool_value(a), x, fuel) == Ok::<Value, EvalError>(Value::Partial { def: CONSTANT, bound: env1(x) }));
        assert(eval(defs, p(0), env2(x, y), f1) == Ok::<Value, EvalError>(x));
    } else {
        lemma_saturate1(defs, SECOND_OF, x, fuel);
        lemma_saturate1(defs, IDENTITY, y, fuel);
        lemma_env_args(y, y, y);
        assert(eval(defs, d(IDENTITY), env1(x), f1) == Ok::<Value, EvalError>(term_of(IDENTITY)));
        assert(apply(defs, bool_value(a), x, fuel) == Ok::<Value, EvalError>(term_of(IDENTITY)));
        assert(eval(defs, p(0), env1(y), f1) == Ok::<Value, EvalError>(y));
    }
}

/// A reference to a definition with parameters is its unapplied term.
pub(crate) proof fn lemma_eval_ref(defs: Seq<Definition>, def: usize, env: Bound, fuel: nat)
    requires
        def < defs.len(),
        defs[def as int].arity != 0,
    ensures
        eval(defs, d(def), env, fuel) == Ok::<Value, EvalError>(term_of(def)),
{
    reveal_with_fuel(eval, 2);
}

/// An application resolves its two sides, then applies.
pub(crate) proof fn lemma_eval_ap(defs: Seq<Definition>, ef: Expr, ex: Expr, env: Bound, fuel: nat, vf: Value, vx: Value)
    requires
        eval(defs, ef, env, fuel) == Ok::<Value, EvalError>(vf),
        eval(defs, ex, env, fuel) == Ok::<Value, EvalError>(vx),
    ensures
        eval(defs, ap(ef, ex), env, fuel) == apply(defs, vf, vx, fuel),
{
}

/// `ef(ex, ey)` resolves its parts, then applies twice.
pub(crate) proof fn lemma_eval_ap2(defs: Seq<Definition>, ef: Expr, ex: Expr, ey: Expr, env: Bound, fuel: nat, vf: Value, vx: Value, vy: Value)
    requires
        eval(defs, ef, env, fuel) == Ok::<Value, EvalError>(vf),
        eval(defs, ex, env, fuel) == Ok::<Value, EvalError>(vx),
        eval(defs, ey, env, fuel) == Ok::<Value, EvalError>(vy),
    ensures
        eval(defs, ap(ap(ef, ex), ey), env, fuel) == apply2(defs, vf, vx, vy, fuel),
{
    lemma_eval_ap(defs, ef, ex, env, fuel, vf, vx);
    reveal_with_fuel(eval, 2);
}

/// A parameter resolves to the argument bound at its position.
pub(crate) proof fn lemma_eval_params(defs: Seq<Definition>, x: Value, y: Value, z: Value, fuel: nat)
    ensures
        eval(defs, p(0), env1(x), fuel) == Ok::<Value, EvalError>(x),
        eval(defs, p(0), env2(x, y), fuel) == Ok::<Value, EvalError>(x),
        eval(defs, p(1), env2(x, y), fuel) == Ok::<Value, EvalError>(y),
        eval(defs, p(0), env3(x, y, z), fuel) == Ok::<Value, EvalError>(x),
        eval(defs, p(1), env3(x, y, z), fuel) == Ok::<Value, EvalError>(y),
        eval(defs, p(2), env3(x, y, z), fuel) == Ok::<Value, EvalError>(z),
{
    lemma_env_args(x, y, z);
}

/// `and(a, b)` resolves to the truthy value exactly when both are truthy,
/// and to the falsy one otherwise.
pub proof fn law_and(defs: Seq<Definition>, a: bool, b: bool)
    requires
        extends_standard(defs),
    ensures
        resolves_to(defs, call2(AND, bool_expr(a), bool_expr(b)), bool_value(a && b)),
{
    let (ta, tb) = (bool_value(a), bool_value(b));
    let env = env2(ta, tb);
    lemma_eval_ref(defs, AND, Bound::Empty, 3);
    lemma_eval_ref(defs, if a { FIRST_OF } else { SECOND_OF }, Bound::Empty, 3);
    lemma_eval_ref(defs, if b { FIRST_OF } else { SECOND_OF }, Bound::Empty, 3);
    lemma_eval_ap2(defs, d(AND), bool_expr(a), bool_expr(b), Bound::Empty, 3, term_of(AND), ta, tb);
    lemma_saturate2(defs, AND, ta, tb, 3);
    lemma_eval_params(defs, ta, tb, tb, 2);
    lemma_eval_ap2(defs, p(0), p(1), p(0), env, 2, ta, tb, ta);
    lemma_select(defs, a, tb, ta, 2);
    assert(eval(defs, call2(AND, bool_expr(a), bool_expr(b)), Bound::Empty, 3) == Ok::<Value, EvalError>(bool_value(a && b)));
}

/// `f(ex, ey, ez)` resolves its parts, then applies three times.
pub(crate) proof fn lemma_eval_call3(defs: Seq<Definition>, f: usize, ex: Expr, ey: Expr, ez: Expr, env: Bound, fuel: nat, vx: Value, vy: Value, vz: Value)
    requires
        f < defs.len(),
        defs[f as int].arity != 0,
        eval(defs, ex, env, fuel) == Ok::<Value, EvalError>(vx),
        eval(defs, ey, env, fuel) == Ok::<Value, EvalError>(vy),
        eval(defs, ez, env, fuel) == Ok::<Value, EvalError>(vz),
    ensures
        eval(defs, call3(f, ex, ey, ez), env, fuel) == apply3(defs, term_of(f), vx, vy, vz, fuel),
{
    lemma_eval_ref(defs, f, env, fuel);
    lemma_eval_ap2(defs, d(f), ex, ey, env, fuel, term_of(f), vx, vy);
    reveal_with_fuel(eval, 2);
}

/// `Constant` with its first argument bound returns it, whatever follows.
pub(crate) proof fn lemma_constant(defs: Seq<Definition>, v: Value, w: Value, fuel: nat)
    requires
        extends_standard(defs),
        fuel >= 1,
    ensures
        apply(defs, Value::Partial { def: CONSTANT, bound: env1(v) }, w, fuel) == Ok::<Value, EvalError>(v),
{
    lemma_saturate2(defs, CONSTANT, v, w, fuel);
    lemma_eval_params(defs, v, w, w, (fuel - 1) as nat);
}

/// `or(a, b)` resolves to the truthy value exactly when either is truthy.
pub proof fn law_or(defs: Seq<Definition>, a: bool, b: bool)
    requires
        extends_standard(defs),
    ensures
        resolves_to(defs, call2(OR, bool_expr(a), bool_expr(b)), bool_value(a || b)),
{
    let (ta, tb) = (bool_value(a), bool_value(b));
    lemma_eval_ref(defs, OR, Bound::Empty, 3);
    lemma_eval_ref(defs, if a { FIRST_OF } else { SECOND_OF }, Bound::Empty, 3);
    lemma_eval_ref(defs, if b { FIRST_OF } else { SECOND_OF }, Bound::Empty, 3);
    lemma_eval_ap2(defs, d(OR), bool_expr(a), bool_expr(b), Bound::Empty, 3, term_of(OR), ta, tb);
    lemma_saturate2(defs, OR, ta, tb, 3);
    lemma_eval_params(defs, ta, tb, tb, 2);
    lemma_eval_ap2(defs, p(0), p(0), p(1), env2(ta, tb), 2, ta, ta, tb);
    lemma_select(defs, a, ta, tb, 2);
    assert(eval(defs, call2(OR, bool_expr(a), bool_expr(b)), Bound::Empty, 3) == Ok::<Value, EvalError>(bool_value(a || b)));
}

/// `not(a)` resolves to the opposite boolean.
pub proof fn law_not(defs: Seq<Definition>, a: bool)
    requires
        extends_standard(defs),
    ensures
        resolves_to(defs, call1(NOT, bool_expr(a)), bool_value(!a)),
{
    lemma_not_value(defs, a, 3);
    lemma_eval_ref(defs, NOT, Bound::Empty, 3);
    lemma_eval_ref(defs, if a { FIRST_OF } else { SECOND_OF }, Bound::Empty, 3);
    lemma_eval_ap(defs, d(NOT), bool_expr(a), Bound::Empty, 3, term_of(NOT), bool_value(a));
    assert(eval(defs, call1(NOT, bool_expr(a)), Bound::Empty, 3) == Ok::<Value, EvalError>(bool_value(!a)));
}

pub(crate) proof fn lemma_not_value(defs: Seq<Definition>, a: bool, fuel: nat)
    requires
        extends_standard(defs),
        fuel >= 3,
    ensures
        apply(defs, term_of(NOT), bool_value(a), fuel) == Ok::<Value, EvalError>(bool_value(!a)),
{
    let ta = bool_value(a);
    let f1 = (fuel - 1) as nat;
    lemma_saturate1(defs, NOT, ta, fuel);
    lemma_eval_params(defs, ta, ta, ta, f1);
    lemma_eval_ref(defs, SECOND_OF, env1(ta), f1);
    lemma_eval_ref(defs, FIRST_OF, env1(ta), f1);
    lemma_eval_ap2(defs, p(0), d(SECOND_OF), d(FIRST_OF), env1(ta), f1, ta, bool_value(false), bool_value(true));
    lemma_select(defs, a, bool_value(false), bool_value(true), f1);
}

/// `xor(a, b)` resolves to the truthy value exactly when one of them is truthy.
pub proof fn law_xor(defs: Seq<Definition>, a: bool, b: bool)
    requires
        extends_standard(defs),
    ensures
        resolves_to(defs, call2(XOR, bool_expr(a), bool_expr(b)), bool_value(a != b)),
{
    let (ta, tb) = (bool_value(a), bool_value(b));
    let env = env2(ta, tb);
    lemma_eval_ref(defs, XOR, Bound::Empty, 4);
    lemma_eval_ref(defs, if a { FIRST_OF } else { SECOND_OF }, Bound::Empty, 4);
    lemma_eval_ref(defs, if b { FIRST_OF } else { SECOND_OF }, Bound::Empty, 4);
    lemma_eval_ap2(defs, d(XOR), bool_expr(a), bool_expr(b), Bound::Empty, 4, term_of(XOR), ta, tb);
    lemma_saturate2(defs, XOR, ta, tb, 4);
    lemma_eval_params(defs, ta, tb, tb, 3);
    lemma_eval_ref(defs, NOT, env, 3);
    lemma_not_value(defs, b, 3);
    lemma_eval_ap(defs, d(NOT), p(1), env, 3, term_of(NOT), tb);
    lemma_eval_ap2(defs, p(0), ap(d(NOT), p(1)), p(1), env, 3, ta, bool_value(!b), tb);
    lemma_select(defs, a, bool_value(!b), tb, 3);
    assert(eval(defs, call2(XOR, bool_expr(a), bool_expr(b)), Bound::Empty, 4) == Ok::<Value, EvalError>(bool_value(a != b)));
}

/// `if(predicate, x, y)` resolves to `x` when the predicate is truthy and to
/// `y` otherwise.
pub proof fn law_if(defs: Seq<Definition>, a: bool, x: u64, y: u64)
    requires
        extends_standard(defs),
    ensures
        resolves_to(
            defs,
            call3(IF, bool_expr(a), Expr::Atom(x), Expr::Atom(y)),
            Value::Atom(if a { x } else { y }),
        ),
{
    let (ta, vx, vy) = (bool_value(a), Value::Atom(x), Value::Atom(y));
    lemma_eval_ref(defs, if a { FIRST_OF } else { SECOND_OF }, Bound::Empty, 3);
    lemma_eval_call3(defs, IF, bool_expr(a), Expr::Atom(x), Expr::Atom(y), Bound::Empty, 3, ta, vx, vy);
    lemma_saturate3(defs, IF, ta, vx, vy, 3);
    lemma_eval_params(defs, ta, vx, vy, 2);
    lemma_eval_ap2(defs, p(0), p(1), p(2), env3(ta, vx, vy), 2, ta, vx, vy);
    lemma_select(defs, a, vx, vy, 2);
    assert(eval(defs, call3(IF, bool_expr(a), Expr::Atom(x), Expr::Atom(y)), Bound::Empty, 3) == Ok::<Value, EvalError>(Value::Atom(if a { x } else { y })));
}

/// The value of `pair(x, y)` applied to a selector.
pub(crate) proof fn lemma_pair_select(defs: Seq<Definition>, vx: Value, vy: Value, s: Value, fuel: nat)
    requires
        extends_standard(defs),
        fuel >= 1,
    ensures
        apply(defs, Value::Partial { def: PAIR, bound: env2(vx, vy) }, s, fuel) == apply2(defs, s, vx, vy, (fuel - 1) as nat),
{
    lemma_saturate3(defs, PAIR, vx, vy, s, fuel);
    lemma_eval_params(defs, vx, vy, s, (fuel - 1) as nat);
    reveal_with_fuel(eval, 3);
}

/// `first(pair(x, y))` is `x` and `second(pair(x, y))` is `y`.
pub proof fn law_pair(defs: Seq<Definition>, x: u64, y: u64)
    requires
        extends_standard(defs),
    ensures
        resolves_to(defs, call1(FIRST, call2(PAIR, Expr::Atom(x), Expr::Atom(y))), Value::Atom(x)),
        resolves_to(defs, call1(SECOND, call2(PAIR, Expr::Atom(x), Expr::Atom(y))), Value::Atom(y)),
{
    let (vx, vy) = (Value::Atom(x), Value::Atom(y));
    let pv = Value::Partial { def: PAIR, bound: env2(vx, vy) };
    let pe = call2(PAIR, Expr::Atom(x), Expr::Atom(y));
    lemma_eval_ref(defs, PAIR, Bound::Empty, 4);
    lemma_eval_ap2(defs, d(PAIR), Expr::Atom(x), Expr::Atom(y), Bound::Empty, 4, term_of(PAIR), vx, vy);
    lemma_saturate3(defs, PAIR, vx, vy, vx, 4);
    lemma_eval_ref(defs, FIRST, Bound::Empty, 4);
    lemma_eval_ref(defs, SECOND, Bound::Empty, 4);
    lemma_eval_ap(defs, d(FIRST), pe, Bound::Empty, 4, term_of(FIRST), pv);
    lemma_eval_ap(defs, d(SECOND), pe, Bound::Empty, 4, term_of(SECOND), pv);
    lemma_saturate1(defs, FIRST, pv, 4);
    lemma_saturate1(defs, SECOND, pv, 4);
    lemma_eval_params(defs, pv, pv, pv, 3);
    lemma_eval_ref(defs, FIRST_OF, env1(pv), 3);
    lemma_eval_ref(defs, SECOND_OF, env1(pv), 3);
    lemma_eval_ap(defs, p(0), d(FIRST_OF), env1(pv), 3, pv, bool_value(true));
    lemma_eval_ap(defs, p(0), d(SECOND_OF), env1(pv), 3, pv, bool_value(false));
    lemma_pair_select(defs, vx, vy, bool_value(true), 3);
    lemma_pair_select(defs, vx, vy, bool_value(false), 3);
    lemma_select(defs, true, vx, vy, 2);
    lemma_select(defs, false, vx, vy, 2);
    assert(eval(defs, call1(FIRST, pe), Bound::Empty, 4) == Ok::<Value, EvalError>(vx));
    assert(eval(defs, call1(SECOND, pe), Bound::Empty, 4) == Ok::<Value, EvalError>(vy));
}

/// `is_null(nil)` is truthy and `is_null(pair(x, y))` is falsy.
pub proof fn law_null(defs: Seq<Definition>, x: u64, y: u64)
    requires
        extends_standard(defs),
    ensures
        resolves_to(defs, call1(NULL, d(NIL)), bool_value(true)),
        resolves_to(defs, call1(NULL, call2(PAIR, Expr::Atom(x), Expr::Atom(y))), bool_value(false)),
{
    let (vx, vy) = (Value::Atom(x), Value::Atom(y));
    let pv = Value::Partial { def: PAIR, bound: env2(vx, vy) };
    let pe = call2(PAIR, Expr::Atom(x), Expr::Atom(y));
    let nilv = Value::Partial { def: CONSTANT, bound: env1(bool_value(true)) };
    let cf = Value::Partial { def: CONSTANT, bound: env1(bool_value(false)) };
    let k = Value::Partial { def: CONSTANT, bound: env1(cf) };
    let ke = ap(d(CONSTANT), ap(d(CONSTANT), d(SECOND_OF)));
    // nil is `Constant(True)`
    lemma_eval_ref(defs, CONSTANT, Bound::Empty, 3);
    lemma_eval_ref(defs, FIRST_OF, Bound::Empty, 3);
    lemma_saturate2(defs, CONSTANT, bool_value(true), vx, 3);
    lemma_eval_ap(defs, d(CONSTANT), d(FIRST_OF), Bound::Empty, 3, term_of(CONSTANT), bool_value(true));
    assert(eval(defs, d(NIL), Bound::Empty, 4) == Ok::<Value, EvalError>(nilv)) by {
        reveal_with_fuel(eval, 2);
    }
    // pair(x, y)
    lemma_eval_ref(defs, PAIR, Bound::Empty, 4);
    lemma_eval_ap2(defs, d(PAIR), Expr::Atom(x), Expr::Atom(y), Bound::Empty, 4, term_of(PAIR), vx, vy);
    lemma_saturate3(defs, PAIR, vx, vy, vx, 4);
    // the body of `Null`, for either argument
    lemma_eval_ref(defs, NULL, Bound::Empty, 4);
    lemma_eval_ap(defs, d(NULL), d(NIL), Bound::Empty, 4, term_of(NULL), nilv);
    lemma_eval_ap(defs, d(NULL), pe, Bound::Empty, 4, term_of(NULL), pv);
    lemma_saturate1(defs, NULL, nilv, 4);
    lemma_saturate1(defs, NULL, pv, 4);
    lemma_eval_params(defs, nilv, nilv, nilv, 3);
    lemma_eval_params(defs, pv, pv, pv, 3);
    lemma_saturate2(defs, CONSTANT, bool_value(false), vx, 3);
    lemma_saturate2(defs, CONSTANT, cf, vx, 3);
    lemma_eval_ref(defs, CONSTANT, env1(nilv), 3);
    lemma_eval_ref(defs, CONSTANT, env1(pv), 3);
    lemma_eval_ref(defs, SECOND_OF, env1(nilv), 3);
    lemma_eval_ref(defs, SECOND_OF, env1(pv), 3);
    lemma_eval_ap(defs, d(CONSTANT), d(SECOND_OF), env1(nilv), 3, term_of(CONSTANT), bool_value(false));
    lemma_eval_ap(defs, d(CONSTANT), d(SECOND_OF), env1(pv), 3, term_of(CONSTANT), bool_value(false));
    lemma_eval_ap(defs, d(CONSTANT), ap(d(CONSTANT), d(SECOND_OF)), env1(nilv), 3, term_of(CONSTANT), cf);
    lemma_eval_ap(defs, d(CONSTANT), ap(d(CONSTANT), d(SECOND_OF)), env1(pv), 3, term_of(CONSTANT), cf);
    lemma_eval_ap(defs, p(0), ke, env1(nilv), 3, nilv, k);
    lemma_eval_ap(defs, p(0), ke, env1(pv), 3, pv, k);
    // nil ignores the selector; a pair hands it its two elements
    lemma_constant(defs, bool_value(true), k, 3);
    lemma_pair_select(defs, vx, vy, k, 3);
    lemma_constant(defs, cf, vx, 2);
    lemma_constant(defs, bool_value(false), vy, 2);
    assert(eval(defs, call1(NULL, d(NIL)), Bound::Empty, 4) == Ok::<Value, EvalError>(bool_value(true)));
    assert(eval(defs, call1(NULL, pe), Bound::Empty, 4) == Ok::<Value, EvalError>(bool_value(false)));
}

/// Currying: for a two-parameter definition `f`, `curry(f)(x)(y)` takes one
/// step more than `f(x, y)` and then gives the same result.
pub proof fn law_curry(defs: Seq<Definition>, f: usize, x: u64, y: u64, fuel: nat)
    requires
        extends_standard(defs),
        f < defs.len(),
        defs[f as int].arity == 2,
    ensures
        eval(defs, call3(CURRY, d(f), Expr::Atom(x), Expr::Atom(y)), Bound::Empty, fuel + 1)
            == eval(defs, call2(f, Expr::Atom(x), Expr::Atom(y)), Bound::Empty, fuel),
{
    let (vx, vy, tf) = (Value::Atom(x), Value::Atom(y), term_of(f));
    let g = fuel + 1;
    let cv = Value::Partial { def: CURRIED, bound: env2(tf, vx) };
    lemma_eval_ref(defs, f, Bound::Empty, g);
    lemma_eval_ref(defs, f, Bound::Empty, fuel);
    lemma_eval_ap2(defs, d(f), Expr::Atom(x), Expr::Atom(y), Bound::Empty, fuel, tf, vx, vy);
    lemma_eval_ref(defs, CURRY, Bound::Empty, g);
    lemma_eval_ap2(defs, d(CURRY), d(f), Expr::Atom(x), Bound::Empty, g, term_of(CURRY), tf, vx);
    lemma_saturate2(defs, CURRY, tf, vx, g);
    lemma_eval_params(defs, tf, vx, vy, fuel);
    lemma_eval_ref(defs, CURRIED, env2(tf, vx), fuel);
    lemma_eval_ap2(defs, d(CURRIED), p(0), p(1), env2(tf, vx), fuel, term_of(CURRIED), tf, vx);
    lemma_saturate3(defs, CURRIED, tf, vx, vy, g);
    lemma_saturate3(defs, CURRIED, tf, vx, vy, fuel);
    lemma_eval_ap(defs, ap(ap(d(CURRY), d(f)), Expr::Atom(x)), Expr::Atom(y), Bound::Empty, g, cv, vy);
    lemma_eval_ap2(defs, p(0), p(1), p(2), env3(tf, vx, vy), fuel, tf, vx, vy);
}

/// `compose(f, g)` resolves to the composition of `f` and `g`.
pub proof fn lemma_compose(defs: Seq<Definition>, f: Value, g: Value, fuel: nat)
    requires
        extends_standard(defs),
        fuel >= 1,
    ensures
        apply2(defs, term_of(COMPOSE), f, g, fuel) == Ok::<Value, EvalError>(composed(f, g)),
{
    let f1 = (fuel - 1) as nat;
    lemma_saturate2(defs, COMPOSE, f, g, fuel);
    lemma_eval_params(defs, f, g, g, f1);
    lemma_eval_ref(defs, COMPOSED, env2(f, g), f1);
    lemma_eval_ap2(defs, d(COMPOSED), p(0), p(1), env2(f, g), f1, term_of(COMPOSED), f, g);
    lemma_saturate3(defs, COMPOSED, f, g, g, f1);
}

/// Applying a composition applies the inner function first, one step down.
pub(crate) proof fn lemma_composed(defs: Seq<Definition>, f: Value, g: Value, x: Value, fuel: nat)
    requires
        extends_standard(defs),
    ensures
        fuel == 0 ==> apply(defs, composed(f, g), x, fuel) == Err::<Value, EvalError>(EvalError::NonTermination),
        fuel >= 1 ==> apply(defs, composed(f, g), x, fuel) == match apply(defs, g, x, (fuel - 1) as nat) {
            Ok(y) => apply(defs, f, y, (fuel - 1) as nat),
            Err(err) => Err(err),
        },
{
    if fuel == 0 {
        lemma_env_args(f, g, x);
    } else {
        let f1 = (fuel - 1) as nat;
        lemma_saturate3(defs, COMPOSED, f, g, x, fuel);
        lemma_eval_params(defs, f, g, x, f1);
        let env = env3(f, g, x);
        lemma_eval_ap(defs, p(1), p(2), env, f1, g, x);
        if let Ok(y) = apply(defs, g, x, f1) {
            lemma_eval_ap(defs, p(0), ap(p(1), p(2)), env, f1, f, y);
        } else {
            reveal_with_fuel(eval, 2);
        }
    }
}

/// Composition is associative: `compose(compose(f, g), h)` and
/// `compose(f, compose(g, h))` give the same value on every input.
pub proof fn law_compose_assoc(defs: Seq<Definition>, f: Value, g: Value, h: Value, x: Value, v: Value)
    requires
        extends_standard(defs),
    ensures
        applies_to(defs, composed(composed(f, g), h), x, v) <==> applies_to(defs, composed(f, composed(g, h)), x, v),
{
    let lhs = composed(composed(f, g), h);
    let rhs = composed(f, composed(g, h));
    if applies_to(defs, lhs, x, v) {
        let n = choose|n: nat| apply(defs, lhs, x, n) == Ok::<Value, EvalError>(v);
        lemma_composed(defs, composed(f, g), h, x, n);
        let a = apply(defs, h, x, (n - 1) as nat)->Ok_0;
        lemma_composed(defs, f, g, a, (n - 1) as nat);
        let b = apply(defs, g, a, (n - 2) as nat)->Ok_0;
        lemma_apply_more_fuel(defs, g, a, (n - 2) as nat, (n - 1) as nat);
        lemma_apply_more_fuel(defs, f, b, (n - 2) as nat, n);
        lemma_composed(defs, g, h, x, n);
        lemma_composed(defs, f, composed(g, h), x, n + 1);
        assert(apply(defs, rhs, x, n + 1) == Ok::<Value, EvalError>(v));
    }
    if applies_to(defs, rhs, x, v) {
        let n = choose|n: nat| apply(defs, rhs, x, n) == Ok::<Value, EvalError>(v);
        lemma_composed(defs, f, composed(g, h), x, n);
        lemma_composed(defs, g, h, x, (n - 1) as nat);
        let a = apply(defs, h, x, (n - 2) as nat)->Ok_0;
        let b = apply(defs, g, a, (n - 2) as nat)->Ok_0;
        lemma_apply_more_fuel(defs, h, x, (n - 2) as nat, n);
        lemma_apply_more_fuel(defs, g, a, (n - 2) as nat, (n - 1) as nat);
        lemma_composed(defs, composed(f, g), h, x, n + 1);
        lemma_composed(defs, f, g, a, n);
        assert(apply(defs, lhs, x, n + 1) == Ok::<Value, EvalError>(v));
    }
}

} // verus!
