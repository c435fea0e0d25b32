use vstd::prelude::*;
use crate::engine::{apply2, Definition};
use crate::library::{term_of, TALLY};
use crate::registry::Registry;
use crate::term::{Bound, EvalError, Value};

verus! {

/// Increments a count by one; the step by which a numeral is read back.
pub struct ConstIncrement;

/// A number fixed in the type.
pub struct ConstNumber<const N: u64>;

impl<const N: u64> ConstNumber<N> {
    /// The number this type stands for.
    pub fn value() -> (r: u64)
        ensures
            r == N,
    {
        N
    }
}

impl ConstIncrement {
    /// `n + 1`, or `None` where that does not fit.
    pub fn call(&self, n: u64) -> (r: Option<u64>)
        ensures
            n < u64::MAX ==> r == Some((n + 1) as u64),
            n == u64::MAX ==> r is None,
    {
        n.checked_add(1)
    }
}

/// How many layers of `Tally` wrap the atom 0 in `v`, if that is its shape.
pub open spec fn tally_depth(v: Value) -> Option<nat>
    decreases v,
{
    match v {
        Value::Atom(a) => if a == 0 { Some(0) } else { None },
        Value::Partial { def, bound } => match bound {
            Bound::Then(prefix, inner) => if def == TALLY && *prefix == Bound::Empty {
                match tally_depth(*inner) {
                    Some(k) => Some(k + 1),
                    None => None,
                }
            } else {
                None
            },
            Bound::Empty => None,
        },
    }
}

/// The number a numeral's value stands for: the numeral applied to `Tally`
/// and the atom 0, with the layers of `Tally` counted.
pub open spec fn number_of(defs: Seq<Definition>, n: Value, fuel: nat) -> Result<u64, EvalError> {
    match apply2(defs, n, term_of(TALLY), Value::Atom(0), fuel) {
        Err(err) => Err(err),
        Ok(v) => match tally_depth(v) {
            Some(k) => if k <= u64::MAX { Ok(k as u64) } else { Err(EvalError::ShapeMismatch) },
            None => Err(EvalError::ShapeMismatch),
        },
    }
}

fn count_layers(v: &Value) -> (r: Result<u64, EvalError>)
    ensures
        r == match tally_depth(*v) {
            Some(k) => if k <= u64::MAX { Ok::<u64, EvalError>(k as u64) } else { Err(EvalError::ShapeMismatch) },
            None => Err(EvalError::ShapeMismatch),
        },
    decreases v,
{
    match v {
        Value::Atom(a) => if *a == 0 { Ok(0) } else { Err(EvalError::ShapeMismatch) },
        Value::Partial { def, bound } => match bound {
            Bound::Then(prefix, inner) => {
                let bare = match &**prefix {
                    Bound::Empty => true,
                    Bound::Then(_, _) => false,
                };
                if *def == TALLY && bare {
                    match count_layers(inner) {
                        Ok(k) => match ConstIncrement.call(k) {
                            Some(k1) => Ok(k1),
                            None => Err(EvalError::ShapeMismatch),
                        },
                        Err(err) => Err(err),
                    }
                } else {
                    Err(EvalError::ShapeMismatch)
                }
            },
            Bound::Empty => Err(EvalError::ShapeMismatch),
        },
    }
}

impl Registry {
    /// Reads a numeral back as a number.
    pub fn to_number(&self, n: Value, fuel: u64) -> (r: Result<u64, EvalError>)
        ensures
            r == number_of(self.spec_defs(), n, fuel as nat),
    {
        let once = self.apply(n, Value::Partial { def: TALLY, bound: Bound::Empty }, fuel);
        match once {
            Err(err) => Err(err),
            Ok(g) => match self.apply(g, Value::Atom(0), fuel) {
                Err(err) => Err(err),
                Ok(v) => count_layers(&v),
            },
        }
    }
}

} // verus!
