use vstd::prelude::*;
use crate::compiler::refs_within;
use crate::engine::{Definition, Expr};
use crate::registry::Registry;
use crate::term::{Bound, Value};

verus! {

/// Index of each standard definition in the registry that `Registry::standard`
/// builds; each definition is described at its spec function below.
pub const IDENTITY: usize = 0;
pub const CONSTANT: usize = 1;
pub const FIRST_OF: usize = 2;
pub const SECOND_OF: usize = 3;
pub const COMPOSED: usize = 4;
pub const COMPOSE: usize = 5;
pub const APPLY: usize = 6;
pub const SHEINFINKEL: usize = 7;
pub const CURRIED: usize = 8;
pub const CURRY: usize = 9;
pub const NOT: usize = 10;
pub const AND: usize = 11;
pub const OR: usize = 12;
pub const XOR: usize = 13;
pub const IF: usize = 14;
pub const SUCCESSOR: usize = 15;
pub const ADD: usize = 16;
pub const MULTIPLY: usize = 17;
pub const PRED_STEP: usize = 18;
pub const PREDECESSOR: usize = 19;
pub const SUBTRACT: usize = 20;
pub const EXPONENT: usize = 21;
pub const IS_ZERO: usize = 22;
pub const LEQ: usize = 23;
pub const EQ: usize = 24;
pub const PAIR: usize = 25;
pub const FIRST: usize = 26;
pub const SECOND: usize = 27;
pub const NULL: usize = 28;
pub const NIL: usize = 29;
pub const TALLY: usize = 30;
/// The numeral zero is the falsy boolean.
pub const ZERO: usize = SECOND_OF;
/// The number of standard definitions.
pub const STANDARD_LEN: usize = 31;

/// `f` applied to `x`.
pub open spec fn ap(f: Expr, x: Expr) -> Expr {
    Expr::Apply(Box::new(f), Box::new(x))
}

/// The parameter at position `i`.
pub open spec fn p(i: usize) -> Expr {
    Expr::Param(i)
}

/// The definition at index `i`.
pub open spec fn d(i: usize) -> Expr {
    Expr::Def(i)
}

/// Returns its input: λx.x.
pub open spec fn identity_def() -> Definition {
    Definition { arity: 1, body: p(0) }
}

/// Returns its first argument, ignoring the second: λi.λv.i.
pub open spec fn constant_def() -> Definition {
    Definition { arity: 2, body: p(0) }
}

/// Takes two values and returns the first; the truthy boolean: λa.λb.a.
pub open spec fn first_of_def() -> Definition {
    Definition { arity: 1, body: ap(d(CONSTANT), p(0)) }
}

/// Takes two values and returns the second; the falsy boolean and zero: λa.λb.b.
pub open spec fn second_of_def() -> Definition {
    Definition { arity: 1, body: d(IDENTITY) }
}

/// The composition of two functions, applied: λf.λg.λx.f(gx).
pub open spec fn composed_def() -> Definition {
    Definition { arity: 3, body: ap(p(0), ap(p(1), p(2))) }
}

/// Composes two functions into a `Composed`: λf.λg.Composed f g.
pub open spec fn compose_def() -> Definition {
    Definition { arity: 2, body: ap(ap(d(COMPOSED), p(0)), p(1)) }
}

/// Applies a function to an input: λf.λx.fx.
pub open spec fn apply_def() -> Definition {
    Definition { arity: 2, body: ap(p(0), p(1)) }
}

/// The S combinator: λx.λy.λz.xz(yz).
pub open spec fn sheinfinkel_def() -> Definition {
    Definition { arity: 3, body: ap(ap(p(0), p(2)), ap(p(1), p(2))) }
}

/// A two-argument function with its first argument fixed: λf.λx.λy.fxy.
pub open spec fn curried_def() -> Definition {
    Definition { arity: 3, body: ap(ap(p(0), p(1)), p(2)) }
}

/// Fixes the first argument of a two-argument function: λf.λx.Curried f x.
pub open spec fn curry_def() -> Definition {
    Definition { arity: 2, body: ap(ap(d(CURRIED), p(0)), p(1)) }
}

/// Boolean negation: λv.vFT.
pub open spec fn not_def() -> Definition {
    Definition { arity: 1, body: ap(ap(p(0), d(SECOND_OF)), d(FIRST_OF)) }
}

/// Boolean conjunction: λa.λb.aba.
pub open spec fn and_def() -> Definition {
    Definition { arity: 2, body: ap(ap(p(0), p(1)), p(0)) }
}

/// Boolean disjunction: λa.λb.aab.
pub open spec fn or_def() -> Definition {
    Definition { arity: 2, body: ap(ap(p(0), p(0)), p(1)) }
}

/// Boolean exclusive or: λa.λb.a(Nb)b.
pub open spec fn xor_def() -> Definition {
    Definition { arity: 2, body: ap(ap(p(0), ap(d(NOT), p(1))), p(1)) }
}

/// Alternation: λp.λa.λb.pab.
pub open spec fn if_def() -> Definition {
    Definition { arity: 3, body: ap(ap(p(0), p(1)), p(2)) }
}

/// A numeral plus one: λn.λf.λx.f(nfx).
pub open spec fn successor_def() -> Definition {
    Definition { arity: 3, body: ap(p(1), ap(ap(p(0), p(1)), p(2))) }
}

/// Numeral addition: λm.λn.mSn.
pub open spec fn add_def() -> Definition {
    Definition { arity: 2, body: ap(ap(p(0), d(SUCCESSOR)), p(1)) }
}

/// Numeral multiplication, which is composition: λm.λn.Composed m n.
pub open spec fn multiply_def() -> Definition {
    Definition { arity: 2, body: ap(ap(d(COMPOSED), p(0)), p(1)) }
}

/// The step of the predecessor: λf.λg.λh.h(gf).
pub open spec fn pred_step_def() -> Definition {
    Definition { arity: 3, body: ap(p(2), ap(p(1), p(0))) }
}

/// The numeral below a numeral: λn.λf.λx.n(PredStep f)(Constant x)I.
pub open spec fn predecessor_def() -> Definition {
    Definition { arity: 3, body: ap(ap(ap(p(0), ap(d(PRED_STEP), p(1))), ap(d(CONSTANT), p(2))), d(IDENTITY)) }
}

/// Numeral subtraction, stopping at zero: λm.λn.nPm.
pub open spec fn subtract_def() -> Definition {
    Definition { arity: 2, body: ap(ap(p(1), d(PREDECESSOR)), p(0)) }
}

/// Numeral exponentiation: λm.λn.nm.
pub open spec fn exponent_def() -> Definition {
    Definition { arity: 2, body: ap(p(1), p(0)) }
}

/// Whether a numeral is zero: λn.n(Constant F)T.
pub open spec fn is_zero_def() -> Definition {
    Definition { arity: 1, body: ap(ap(p(0), ap(d(CONSTANT), d(SECOND_OF))), d(FIRST_OF)) }
}

/// Whether one numeral is at most another: λm.λn.IsZero(Subtract m n).
pub open spec fn leq_def() -> Definition {
    Definition { arity: 2, body: ap(d(IS_ZERO), ap(ap(d(SUBTRACT), p(0)), p(1))) }
}

/// Whether two numerals are equal: λm.λn.And(Leq m n)(Leq n m).
pub open spec fn eq_def() -> Definition {
    Definition { arity: 2, body: ap(ap(d(AND), ap(ap(d(LEQ), p(0)), p(1))), ap(ap(d(LEQ), p(1)), p(0))) }
}

/// A pair of two values: λx.λy.λf.fxy.
pub open spec fn pair_def() -> Definition {
    Definition { arity: 3, body: ap(ap(p(2), p(0)), p(1)) }
}

/// The first element of a pair: λp.pT.
pub open spec fn first_def() -> Definition {
    Definition { arity: 1, body: ap(p(0), d(FIRST_OF)) }
}

/// The second element of a pair: λp.pF.
pub open spec fn second_def() -> Definition {
    Definition { arity: 1, body: ap(p(0), d(SECOND_OF)) }
}

/// Whether a list is empty: λp.p(λx.λy.F).
pub open spec fn null_def() -> Definition {
    Definition { arity: 1, body: ap(p(0), ap(d(CONSTANT), ap(d(CONSTANT), d(SECOND_OF)))) }
}

/// The empty list, `Constant T`; it takes no parameters.
pub open spec fn nil_def() -> Definition {
    Definition { arity: 0, body: ap(d(CONSTANT), d(FIRST_OF)) }
}

/// An inert wrapper: applied once it holds its argument, which is how a numeral is read back.
pub open spec fn tally_def() -> Definition {
    Definition { arity: 2, body: p(0) }
}

/// Whether `defs` begins with the standard definitions, at their indices.
pub open spec fn extends_standard(defs: Seq<Definition>) -> bool {
    &&& defs.len() >= STANDARD_LEN
    &&& defs[IDENTITY as int] == identity_def()
    &&& defs[CONSTANT as int] == constant_def()
    &&& defs[FIRST_OF as int] == first_of_def()
    &&& defs[SECOND_OF as int] == second_of_def()
    &&& defs[COMPOSED as int] == composed_def()
    &&& defs[COMPOSE as int] == compose_def()
    &&& defs[APPLY as int] == apply_def()
    &&& defs[SHEINFINKEL as int] == sheinfinkel_def()
    &&& defs[CURRIED as int] == curried_def()
    &&& defs[CURRY as int] == curry_def()
    &&& defs[NOT as int] == not_def()
    &&& defs[AND as int] == and_def()
    &&& defs[OR as int] == or_def()
    &&& defs[XOR as int] == xor_def()
    &&& defs[IF as int] == if_def()
    &&& defs[SUCCESSOR as int] == successor_def()
    &&& defs[ADD as int] == add_def()
    &&& defs[MULTIPLY as int] == multiply_def()
    &&& defs[PRED_STEP as int] == pred_step_def()
    &&& defs[PREDECESSOR as int] == predecessor_def()
    &&& defs[SUBTRACT as int] == subtract_def()
    &&& defs[EXPONENT as int] == exponent_def()
    &&& defs[IS_ZERO as int] == is_zero_def()
    &&& defs[LEQ as int] == leq_def()
    &&& defs[EQ as int] == eq_def()
    &&& defs[PAIR as int] == pair_def()
    &&& defs[FIRST as int] == first_def()
    &&& defs[SECOND as int] == second_def()
    &&& defs[NULL as int] == null_def()
    &&& defs[NIL as int] == nil_def()
    &&& defs[TALLY as int] == tally_def()
}

/// The value a reference to a definition with parameters resolves to.
pub open spec fn term_of(def: usize) -> Value {
    Value::Partial { def, bound: Bound::Empty }
}

/// The boolean value for `b`.
pub open spec fn bool_value(b: bool) -> Value {
    term_of(if b { FIRST_OF } else { SECOND_OF })
}

/// The numeral that `successor` applied `n` times to zero resolves to.
pub open spec fn numeral(n: nat) -> Value
    decreases n,
{
    if n == 0 {
        term_of(ZERO)
    } else {
        Value::Partial {
            def: SUCCESSOR,
            bound: Bound::Then(Box::new(Bound::Empty), Box::new(numeral((n - 1) as nat))),
        }
    }
}

fn app(f: Expr, x: Expr) -> (r: Expr)
    ensures
        r == ap(f, x),
{
    Expr::Apply(Box::new(f), Box::new(x))
}

fn make_identity_def() -> (r: Definition)
    ensures
        r == identity_def(),
{
    Definition { arity: 1, body: Expr::Param(0) }
}

fn make_constant_def() -> (r: Definition)
    ensures
        r == constant_def(),
{
    Definition { arity: 2, body: Expr::Param(0) }
}

fn make_first_of_def() -> (r: Definition)
    ensures
        r == first_of_def(),
{
    Definition { arity: 1, body: app(Expr::Def(CONSTANT), Expr::Param(0)) }
}

fn make_second_of_def() -> (r: Definition)
    ensures
        r == second_of_def(),
{
    Definition { arity: 1, body: Expr::Def(IDENTITY) }
}

fn make_composed_def() -> (r: Definition)
    ensures
        r == composed_def(),
{
    Definition { arity: 3, body: app(Expr::Param(0), app(Expr::Param(1), Expr::Param(2))) }
}

fn make_compose_def() -> (r: Definition)
    ensures
        r == compose_def(),
{
    Definition { arity: 2, body: app(app(Expr::Def(COMPOSED), Expr::Param(0)), Expr::Param(1)) }
}

fn make_apply_def() -> (r: Definition)
    ensures
        r == apply_def(),
{
    Definition { arity: 2, body: app(Expr::Param(0), Expr::Param(1)) }
}

fn make_sheinfinkel_def() -> (r: Definition)
    ensures
        r == sheinfinkel_def(),
{
    Definition { arity: 3, body: app(app(Expr::Param(0), Expr::Param(2)), app(Expr::Param(1), Expr::Param(2))) }
}

fn make_curried_def() -> (r: Definition)
    ensures
        r == curried_def(),
{
    Definition { arity: 3, body: app(app(Expr::Param(0), Expr::Param(1)), Expr::Param(2)) }
}

fn make_curry_def() -> (r: Definition)
    ensures
        r == curry_def(),
{
    Definition { arity: 2, body: app(app(Expr::Def(CURRIED), Expr::Param(0)), Expr::Param(1)) }
}

fn make_not_def() -> (r: Definition)
    ensures
        r == not_def(),
{
    Definition { arity: 1, body: app(app(Expr::Param(0), Expr::Def(SECOND_OF)), Expr::Def(FIRST_OF)) }
}

fn make_and_def() -> (r: Definition)
    ensures
        r == and_def(),
{
    Definition { arity: 2, body: app(app(Expr::Param(0), Expr::Param(1)), Expr::Param(0)) }
}

fn make_or_def() -> (r: Definition)
    ensures
        r == or_def(),
{
    Definition { arity: 2, body: app(app(Expr::Param(0), Expr::Param(0)), Expr::Param(1)) }
}

fn make_xor_def() -> (r: Definition)
    ensures
        r == xor_def(),
{
    Definition { arity: 2, body: app(app(Expr::Param(0), app(Expr::Def(NOT), Expr::Param(1))), Expr::Param(1)) }
}

fn make_if_def() -> (r: Definition)
    ensures
        r == if_def(),
{
    Definition { arity: 3, body: app(app(Expr::Param(0), Expr::Param(1)), Expr::Param(2)) }
}

fn make_successor_def() -> (r: Definition)
    ensures
        r == successor_def(),
{
    Definition { arity: 3, body: app(Expr::Param(1), app(app(Expr::Param(0), Expr::Param(1)), Expr::Param(2))) }
}

fn make_add_def() -> (r: Definition)
    ensures
        r == add_def(),
{
    Definition { arity: 2, body: app(app(Expr::Param(0), Expr::Def(SUCCESSOR)), Expr::Param(1)) }
}

fn make_multiply_def() -> (r: Definition)
    ensures
        r == multiply_def(),
{
    Definition { arity: 2, body: app(app(Expr::Def(COMPOSED), Expr::Param(0)), Expr::Param(1)) }
}

fn make_pred_step_def() -> (r: Definition)
    ensures
        r == pred_step_def(),
{
    Definition { arity: 3, body: app(Expr::Param(2), app(Expr::Param(1), Expr::Param(0))) }
}

fn make_predecessor_def() -> (r: Definition)
    ensures
        r == predecessor_def(),
{
    Definition { arity: 3, body: app(app(app(Expr::Param(0), app(Expr::Def(PRED_STEP), Expr::Param(1))), app(Expr::Def(CONSTANT), Expr::Param(2))), Expr::Def(IDENTITY)) }
}

fn make_subtract_def() -> (r: Definition)
    ensures
        r == subtract_def(),
{
    Definition { arity: 2, body: app(app(Expr::Param(1), Expr::Def(PREDECESSOR)), Expr::Param(0)) }
}

fn make_exponent_def() -> (r: Definition)
    ensures
        r == exponent_def(),
{
    Definition { arity: 2, body: app(Expr::Param(1), Expr::Param(0)) }
}

fn make_is_zero_def() -> (r: Definition)
    ensures
        r == is_zero_def(),
{
    Definition { arity: 1, body: app(app(Expr::Param(0), app(Expr::Def(CONSTANT), Expr::Def(SECOND_OF))), Expr::Def(FIRST_OF)) }
}

fn make_leq_def() -> (r: Definition)
    ensures
        r == leq_def(),
{
    Definition { arity: 2, body: app(Expr::Def(IS_ZERO), app(app(Expr::Def(SUBTRACT), Expr::Param(0)), Expr::Param(1))) }
}

fn make_eq_def() -> (r: Definition)
    ensures
        r == eq_def(),
{
    Definition { arity: 2, body: app(app(Expr::Def(AND), app(app(Expr::Def(LEQ), Expr::Param(0)), Expr::Param(1))), app(app(Expr::Def(LEQ), Expr::Param(1)), Expr::Param(0))) }
}

fn make_pair_def() -> (r: Definition)
    ensures
        r == pair_def(),
{
    Definition { arity: 3, body: app(app(Expr::Param(2), Expr::Param(0)), Expr::Param(1)) }
}

fn make_first_def() -> (r: Definition)
    ensures
        r == first_def(),
{
    Definition { arity: 1, body: app(Expr::Param(0), Expr::Def(FIRST_OF)) }
}

fn make_second_def() -> (r: Definition)
    ensures
        r == second_def(),
{
    Definition { arity: 1, body: app(Expr::Param(0), Expr::Def(SECOND_OF)) }
}

fn make_null_def() -> (r: Definition)
    ensures
        r == null_def(),
{
    Definition { arity: 1, body: app(Expr::Param(0), app(Expr::Def(CONSTANT), app(Expr::Def(CONSTANT), Expr::Def(SECOND_OF)))) }
}

fn make_nil_def() -> (r: Definition)
    ensures
        r == nil_def(),
{
    Definition { arity: 0, body: app(Expr::Def(CONSTANT), Expr::Def(FIRST_OF)) }
}

fn make_tally_def() -> (r: Definition)
    ensures
        r == tally_def(),
{
    Definition { arity: 2, body: Expr::Param(0) }
}

impl Registry {
    /// The registry holding the standard combinators, booleans, numerals
    /// and pairs, each at the index of its constant.
    pub fn standard() -> (r: Registry)
        ensures
            r.wf(),
            r.spec_defs().len() == STANDARD_LEN,
            extends_standard(r.spec_defs()),
    {
        let mut r = Registry::new();
        proof {
            reveal_with_fuel(refs_within, 6);
        }
        r.add("Identity", make_identity_def());
        r.add("Constant", make_constant_def());
        r.add("FirstOf", make_first_of_def());
        r.add("SecondOf", make_second_of_def());
        r.add("Composed", make_composed_def());
        r.add("Compose", make_compose_def());
        r.add("Apply", make_apply_def());
        r.add("Sheinfinkel", make_sheinfinkel_def());
        r.add("Curried", make_curried_def());
        r.add("Curry", make_curry_def());
        r.add("Not", make_not_def());
        r.add("And", make_and_def());
        r.add("Or", make_or_def());
        r.add("Xor", make_xor_def());
        r.add("If", make_if_def());
        r.add("Successor", make_successor_def());
        r.add("Add", make_add_def());
        r.add("Multiply", make_multiply_def());
        r.add("PredStep", make_pred_step_def());
        r.add("Predecessor", make_predecessor_def());
        r.add("Subtract", make_subtract_def());
        r.add("Exponent", make_exponent_def());
        r.add("IsZero", make_is_zero_def());
        r.add("Leq", make_leq_def());
        r.add("Eq", make_eq_def());
        r.add("Pair", make_pair_def());
        r.add("First", make_first_def());
        r.add("Second", make_second_def());
        r.add("Null", make_null_def());
        r.add("Nil", make_nil_def());
        r.add("Tally", make_tally_def());
        r
    }
}

} // verus!
