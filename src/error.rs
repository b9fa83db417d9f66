use crate::value::Real;
use vstd::prelude::*;

verus! {

/// A failure of the calculator: `Parse` for malformed text, `Value` for an
/// operation that has no value. `NonIntegerFactorial` is the value failure
/// of a factorial taken of a floating-point operand; its message names that
/// operand's value, which the host computes from the term.
#[derive(Debug, PartialEq)]
pub enum Error {
    Parse(String),
    Value(String),
    NonIntegerFactorial(Real),
}

impl Error {
    /// A copy of the error.
    pub fn duplicate(&self) -> (r: Error)
        ensures
            r == *self,
    {
        match self {
            Error::Parse(s) => Error::Parse(s.clone()),
            Error::Value(s) => Error::Value(s.clone()),
            Error::NonIntegerFactorial(r) => Error::NonIntegerFactorial(r.duplicate()),
        }
    }
}

} // verus!
