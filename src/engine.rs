use vstd::prelude::*;
use crate::term::{Bound, EvalError, Value};

verus! {

/// A compiled expression: parameters and definitions are referred to by index.
#[derive(Debug, PartialEq, Eq)]
pub enum Expr {
    Atom(u64),
    /// The parameter at this position of the enclosing definition.
    Param(usize),
    /// The definition at this index of the registry.
    Def(usize),
    /// The function position applied to one argument.
    Apply(Box<Expr>, Box<Expr>),
}

/// A compiled definition: how many parameters it takes, and its body.
#[derive(Debug, PartialEq, Eq)]
pub struct Definition {
    pub arity: usize,
    pub body: Expr,
}

impl Expr {
    pub open spec fn size(self) -> nat
        decreases self,
    {
        match self {
            Expr::Apply(f, x) => 1 + f.size() + x.size(),
            _ => 1,
        }
    }
}

/// The value an expression resolves to in environment `env`, where `fuel`
/// bounds how many saturated applications may be nested.
pub open spec fn eval(defs: Seq<Definition>, e: Expr, env: Bound, fuel: nat) -> Result<Value, EvalError>
    decreases fuel, e.size(),
{
    match e {
        Expr::Atom(a) => Ok(Value::Atom(a)),
        Expr::Param(i) => if i < env.args().len() {
            Ok(env.args()[i as int])
        } else {
            Err(EvalError::UnboundName)
        },
        Expr::Def(d) => refer(defs, d, fuel),
        Expr::Apply(f, x) => match eval(defs, *f, env, fuel) {
            Err(err) => Err(err),
            Ok(fv) => match eval(defs, *x, env, fuel) {
                Err(err) => Err(err),
                Ok(xv) => apply(defs, fv, xv, fuel),
            },
        },
    }
}

/// The value a reference to definition `d` stands for: a definition without
/// parameters is evaluated at once, any other one is its own unapplied term.
pub open spec fn refer(defs: Seq<Definition>, d: usize, fuel: nat) -> Result<Value, EvalError>
    decreases fuel, 0nat,
{
    if d >= defs.len() {
        Err(EvalError::UnboundName)
    } else if defs[d as int].arity == 0 {
        if fuel == 0 {
            Err(EvalError::NonTermination)
        } else {
            eval(defs, defs[d as int].body, Bound::Empty, (fuel - 1) as nat)
        }
    } else {
        Ok(Value::Partial { def: d, bound: Bound::Empty })
    }
}

/// Applying `f` to `x`: the argument is bound, and a term that thereby holds
/// all its arguments is evaluated at once.
pub open spec fn apply(defs: Seq<Definition>, f: Value, x: Value, fuel: nat) -> Result<Value, EvalError>
    decreases fuel, 0nat,
{
    match f {
        Value::Atom(_) => Err(EvalError::ShapeMismatch),
        Value::Partial { def, bound } => if def >= defs.len() {
            Err(EvalError::UnboundName)
        } else if bound.args().len() >= defs[def as int].arity {
            Err(EvalError::ArityMismatch)
        } else {
            let next = Bound::Then(Box::new(bound), Box::new(x));
            if bound.args().len() + 1 < defs[def as int].arity {
                Ok(Value::Partial { def, bound: next })
            } else if fuel == 0 {
                Err(EvalError::NonTermination)
            } else {
                eval(defs, defs[def as int].body, next, (fuel - 1) as nat)
            }
        },
    }
}

/// Applying `f` to `x`, then the result to `y`.
pub open spec fn apply2(defs: Seq<Definition>, f: Value, x: Value, y: Value, fuel: nat) -> Result<Value, EvalError> {
    match apply(defs, f, x, fuel) {
        Ok(g) => apply(defs, g, y, fuel),
        Err(err) => Err(err),
    }
}

/// Applying `f` to `x`, `y` and `z` in turn.
pub open spec fn apply3(defs: Seq<Definition>, f: Value, x: Value, y: Value, z: Value, fuel: nat) -> Result<Value, EvalError> {
    match apply2(defs, f, x, y, fuel) {
        Ok(g) => apply(defs, g, z, fuel),
        Err(err) => Err(err),
    }
}

/// Whether the closed expression `e` resolves to `v` with some budget.
pub open spec fn resolves_to(defs: Seq<Definition>, e: Expr, v: Value) -> bool {
    exists|fuel: nat| eval(defs, e, Bound::Empty, fuel) == Ok::<Value, EvalError>(v)
}

/// Whether applying `f` to `x` yields `v` with some budget.
pub open spec fn applies_to(defs: Seq<Definition>, f: Value, x: Value, v: Value) -> bool {
    exists|fuel: nat| apply(defs, f, x, fuel) == Ok::<Value, EvalError>(v)
}

/// More budget never changes a result that was reached without running out.
pub proof fn lemma_eval_more_fuel(defs: Seq<Definition>, e: Expr, env: Bound, fuel: nat, more: nat)
    requires
        fuel <= more,
        eval(defs, e, env, fuel) != Err::<Value, EvalError>(EvalError::NonTermination),
    ensures
        eval(defs, e, env, more) == eval(defs, e, env, fuel),
    decreases fuel, e.size(),
{
    match e {
        Expr::Def(d) => lemma_refer_more_fuel(defs, d, fuel, more),
        Expr::Apply(f, x) => {
            lemma_eval_more_fuel(defs, *f, env, fuel, more);
            if let Ok(fv) = eval(defs, *f, env, fuel) {
                lemma_eval_more_fuel(defs, *x, env, fuel, more);
                if let Ok(xv) = eval(defs, *x, env, fuel) {
                    lemma_apply_more_fuel(defs, fv, xv, fuel, more);
                }
            }
        },
        _ => {},
    }
}

/// More budget never changes what a reference resolves to, once reached.
pub proof fn lemma_refer_more_fuel(defs: Seq<Definition>, d: usize, fuel: nat, more: nat)
    requires
        fuel <= more,
        refer(defs, d, fuel) != Err::<Value, EvalError>(EvalError::NonTermination),
    ensures
        refer(defs, d, more) == refer(defs, d, fuel),
    decreases fuel, 0nat,
{
    if d < defs.len() && defs[d as int].arity == 0 {
        lemma_eval_more_fuel(defs, defs[d as int].body, Bound::Empty, (fuel - 1) as nat, (more - 1) as nat);
    }
}

/// More budget never changes the result of an application, once reached.
pub proof fn lemma_apply_more_fuel(defs: Seq<Definition>, f: Value, x: Value, fuel: nat, more: nat)
    requires
        fuel <= more,
        apply(defs, f, x, fuel) != Err::<Value, EvalError>(EvalError::NonTermination),
    ensures
        apply(defs, f, x, more) == apply(defs, f, x, fuel),
    decreases fuel, 0nat,
{
    if let Value::Partial { def, bound } = f {
        if def < defs.len() && bound.args().len() + 1 == defs[def as int].arity {
            let next = Bound::Then(Box::new(bound), Box::new(x));
            lemma_eval_more_fuel(defs, defs[def as int].body, next, (fuel - 1) as nat, (more - 1) as nat);
        }
    }
}

/// Resolution is deterministic: a closed expression resolves to at most one value.
pub proof fn lemma_resolves_to_unique(defs: Seq<Definition>, e: Expr, v: Value, w: Value)
    requires
        resolves_to(defs, e, v),
        resolves_to(defs, e, w),
    ensures
        v == w,
{
    let fv = choose|fuel: nat| eval(defs, e, Bound::Empty, fuel) == Ok::<Value, EvalError>(v);
    let fw = choose|fuel: nat| eval(defs, e, Bound::Empty, fuel) == Ok::<Value, EvalError>(w);
    if fv <= fw {
        lemma_eval_more_fuel(defs, e, Bound::Empty, fv, fw);
    } else {
        lemma_eval_more_fuel(defs, e, Bound::Empty, fw, fv);
    }
}

/// An application yields at most one value.
pub proof fn lemma_applies_to_unique(defs: Seq<Definition>, f: Value, x: Value, v: Value, w: Value)
    requires
        applies_to(defs, f, x, v),
        applies_to(defs, f, x, w),
    ensures
        v == w,
{
    let fv = choose|fuel: nat| apply(defs, f, x, fuel) == Ok::<Value, EvalError>(v);
    let fw = choose|fuel: nat| apply(defs, f, x, fuel) == Ok::<Value, EvalError>(w);
    if fv <= fw {
        lemma_apply_more_fuel(defs, f, x, fv, fw);
    } else {
        lemma_apply_more_fuel(defs, f, x, fw, fv);
    }
}

} // verus!
