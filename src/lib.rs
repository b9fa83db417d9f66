use crate::ast::{Expression, Literal, Operation};
use crate::error::Error;
use crate::lexer::{lexes, Token};
use crate::parse::{parse_tokens, syntax_error, Parser};
use crate::value::{apply_binary, evaluate, integer_factorial, Binary, Fault, Real, Value};
use vstd::prelude::*;
use vstd::string::StringExecFns;

pub mod ast;
pub mod error;
pub mod laws;
pub mod lexer;
pub mod parse;
pub mod same;
pub mod value;

verus! {

/// `e` is the error that reports the evaluation fault `f`.
pub open spec fn fault_error(f: Fault, e: Error) -> bool {
    match f {
        Fault::Overflow => e matches Error::Value(m) && m@ == "Integer overflow"@,
        Fault::DivideByZero => e matches Error::Value(m) && m@ == "Can't divide by zero"@,
        Fault::NegativeFactorial => e matches Error::Value(m) && m@
            == "Can't take factorial of negative number"@,
        Fault::FactorialOf(r) => e == Error::NonIntegerFactorial(r),
    }
}

/// What evaluating the tokens from `pos` on comes to: the parse error, or
/// the value of the tree, or the fault met while computing it.
pub open spec fn calculation(
    toks: Seq<Result<Token, Error>>,
    pos: int,
    r: Result<Value, Error>,
) -> bool {
    match parse_tokens(toks, pos) {
        Err(f) => r matches Err(x) && syntax_error(f, x),
        Ok(e) => match evaluate(e) {
            Ok(v) => r == Ok::<Value, Error>(v),
            Err(f) => r matches Err(x) && fault_error(f, x),
        },
    }
}

/// Evaluates one arithmetic expression given as text.
pub struct Calculator {
    pub parser: Parser,
}

impl Calculator {
    pub fn new(input: &str) -> (r: Calculator)
        ensures
            lexes(input@, r.parser.tokens@),
            r.parser.pos == 0,
            r.parser.wf(),
    {
        Calculator { parser: Parser::new(input) }
    }

    /// Parses the input and evaluates it.
    pub fn calculate(&mut self) -> (r: Result<Value, Error>)
        requires
            old(self).parser.wf(),
        ensures
            final(self).parser.wf(),
            final(self).parser.tokens == old(self).parser.tokens,
            parse_tokens(old(self).parser.tokens@, old(self).parser.pos as int) is Ok
                ==> final(self).parser.pos == final(self).parser.tokens@.len(),
            calculation(old(self).parser.tokens@, old(self).parser.pos as int, r),
    {
        let expr = match self.parser.parse() {
            Err(e) => return Err(e),
            Ok(e) => e,
        };
        match Self::calculate_expression(expr) {
            Ok(v) => Ok(v),
            Err(f) => Err(fault_into_error(f)),
        }
    }

    /// Evaluates an expression tree bottom-up, left operand first; the first
    /// fault ends the walk.
    pub fn calculate_expression(e: Expression) -> (r: Result<Value, Fault>)
        ensures
            r == evaluate(e),
        decreases e,
    {
        let operation = match e {
            Expression::Literal(Literal::Integer(i)) => return Ok(Value::Integer(i)),
            Expression::Literal(Literal::Float(s)) => return Ok(Value::Float(Real::Decimal(s))),
            Expression::Operation(operation) => operation,
        };
        let (op, l, r) = match operation {
            Operation::Add(l, r) => (Binary::Add, l, r),
            Operation::Subtract(l, r) => (Binary::Subtract, l, r),
            Operation::Multiply(l, r) => (Binary::Multiply, l, r),
            Operation::Divide(l, r) => (Binary::Divide, l, r),
            Operation::Modulo(l, r) => (Binary::Modulo, l, r),
            Operation::Exponentiate(l, r) => (Binary::Power, l, r),
            Operation::Assert(x) => return Self::calculate_expression(*x),
            Operation::Negate(x) => {
                return match Self::calculate_expression(*x) {
                    Err(f) => Err(f),
                    Ok(Value::Integer(i)) => Ok(Value::Integer(0i64.wrapping_sub(i))),
                    Ok(Value::Float(r)) => Ok(Value::Float(Real::Negate(Box::new(r)))),
                };
            },
            Operation::Factorial(x) => {
                return match Self::calculate_expression(*x) {
                    Err(f) => Err(f),
                    Ok(Value::Integer(i)) => if i < 0 {
                        Err(Fault::NegativeFactorial)
                    } else {
                        integer_factorial(i)
                    },
                    Ok(Value::Float(r)) => Err(Fault::FactorialOf(r)),
                };
            },
        };
        let a = match Self::calculate_expression(*l) {
            Err(f) => return Err(f),
            Ok(a) => a,
        };
        let b = match Self::calculate_expression(*r) {
            Err(f) => return Err(f),
            Ok(b) => b,
        };
        apply_binary(op, a, b)
    }
}

/// The error that reports an evaluation fault.
pub fn fault_into_error(f: Fault) -> (r: Error)
    ensures
        fault_error(f, r),
{
    match f {
        Fault::Overflow => Error::Value(String::from_str("Integer overflow")),
        Fault::DivideByZero => Error::Value(String::from_str("Can't divide by zero")),
        Fault::NegativeFactorial => Error::Value(
            String::from_str("Can't take factorial of negative number"),
        ),
        Fault::FactorialOf(r) => Error::NonIntegerFactorial(r),
    }
}

/// Evaluates `input`: the whole pipeline of lexing, parsing and evaluating.
pub fn calculate(input: &str) -> (r: Result<Value, Error>)
    ensures
        exists|toks: Seq<Result<Token, Error>>|
            lexes(input@, toks) && calculation(toks, 0, r),
{
    let mut calculator = Calculator::new(input);
    let ghost toks = calculator.parser.tokens@;
    let r = calculator.calculate();
    assert(lexes(input@, toks) && calculation(toks, 0, r));
    r
}

} // verus!
