//! An evaluator for a curried combinator calculus: definitions are compiled
//! into terms that take one argument at a time, and application expressions
//! are resolved strictly, left to right.

use vstd::prelude::*;

pub mod compiler;
pub mod engine;
pub mod laws;
pub mod library;
pub mod math;
pub mod numerals;
pub mod registry;
pub mod term;

verus! {

/// A function from `Input` to `Self::Output`.
pub trait Function<Input> {
    type Output;
}

/// Applying a value to a value resolves to a value or fails.
impl Function<term::Value> for term::Value {
    type Output = Result<term::Value, term::EvalError>;
}

} // verus!
