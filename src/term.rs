use vstd::prelude::*;

verus! {

/// A resolved value: an opaque atom, or a definition with some of its leading
/// parameters already bound.
#[derive(Debug, PartialEq, Eq)]
pub enum Value {
    Atom(u64),
    Partial { def: usize, bound: Bound },
}

/// The arguments bound so far, as a list that grows at its end.
#[derive(Debug, PartialEq, Eq)]
pub enum Bound {
    Empty,
    Then(Box<Bound>, Box<Value>),
}

/// What can go wrong while compiling a definition or resolving an expression.
#[derive(Debug, PartialEq, Eq, Clone, Copy)]
pub enum EvalError {
    /// A name, parameter or definition index that is not in scope.
    UnboundName,
    /// A value that already holds all its arguments received one more.
    ArityMismatch,
    /// Something that is not a function stood in function position.
    ShapeMismatch,
    /// The step budget ran out before a value was reached.
    NonTermination,
}

impl Bound {
    /// The bound arguments, first bound first.
    pub open spec fn args(self) -> Seq<Value>
        decreases self,
    {
        match self {
            Bound::Empty => Seq::empty(),
            Bound::Then(prefix, last) => prefix.args().push(*last),
        }
    }

    /// The number of bound arguments, counted up to `limit`.
    pub fn count_upto(&self, limit: usize) -> (r: usize)
        ensures
            r as nat == if self.args().len() < limit { self.args().len() } else { limit as nat },
        decreases self,
    {
        match self {
            Bound::Empty => 0,
            Bound::Then(prefix, _) => {
                if limit == 0 {
                    0
                } else {
                    let k = prefix.count_upto(limit - 1);
                    k + 1
                }
            },
        }
    }

    /// The argument `back` places before the last one.
    pub fn from_back(&self, back: usize) -> (r: Option<&Value>)
        ensures
            back < self.args().len() ==> r == Some(&self.args()[self.args().len() - 1 - back]),
            back >= self.args().len() ==> r is None,
        decreases self,
    {
        match self {
            Bound::Empty => None,
            Bound::Then(prefix, last) => {
                if back == 0 {
                    Some(&**last)
                } else {
                    prefix.from_back(back - 1)
                }
            },
        }
    }

    /// A copy of the list, equal to it.
    pub fn duplicate(&self) -> (r: Bound)
        ensures
            r == *self,
        decreases self,
    {
        match self {
            Bound::Empty => Bound::Empty,
            Bound::Then(prefix, last) => Bound::Then(
                Box::new(prefix.duplicate()),
                Box::new(last.duplicate()),
            ),
        }
    }
}

impl Value {
    /// A copy of the value, equal to it.
    pub fn duplicate(&self) -> (r: Value)
        ensures
            r == *self,
        decreases self,
    {
        match self {
            Value::Atom(a) => Value::Atom(*a),
            Value::Partial { def, bound } => Value::Partial { def: *def, bound: bound.duplicate() },
        }
    }
}

} // verus!
