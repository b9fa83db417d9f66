use vstd::prelude::*;

verus! {

/// A numeric literal: an integer, or a decimal number kept as its text
/// (digits, `.`, digits), whose floating-point value the host computes.
#[derive(Debug, PartialEq)]
pub enum Literal {
    Integer(i64),
    Float(String),
}

/// An operation node; it owns its operands.
#[derive(Debug, PartialEq)]
pub enum Operation {
    Add(Box<Expression>, Box<Expression>),
    Assert(Box<Expression>),
    Divide(Box<Expression>, Box<Expression>),
    Exponentiate(Box<Expression>, Box<Expression>),
    Factorial(Box<Expression>),
    Modulo(Box<Expression>, Box<Expression>),
    Multiply(Box<Expression>, Box<Expression>),
    Negate(Box<Expression>),
    Subtract(Box<Expression>, Box<Expression>),
}

#[derive(Debug, PartialEq)]
pub enum Expression {
    Literal(Literal),
    Operation(Operation),
}

} // verus!
