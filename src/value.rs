use crate::ast::{Expression, Literal, Operation};
use vstd::prelude::*;

verus! {

/// A floating-point quantity, kept as the term that computes it. The host
/// reduces it with IEEE arithmetic.
#[derive(Debug, PartialEq)]
pub enum Real {
    Decimal(String),
    Integer(i64),
    Add(Box<Real>, Box<Real>),
    Subtract(Box<Real>, Box<Real>),
    Multiply(Box<Real>, Box<Real>),
    Divide(Box<Real>, Box<Real>),
    Remainder(Box<Real>, Box<Real>),
    Power(Box<Real>, Box<Real>),
    Negate(Box<Real>),
}

impl Real {
    /// A copy of the term.
    pub fn duplicate(&self) -> (r: Real)
        ensures
            r == *self,
        decreases self,
    {
        match self {
            Real::Decimal(s) => Real::Decimal(s.clone()),
            Real::Integer(i) => Real::Integer(*i),
            Real::Add(a, b) => Real::Add(Box::new(a.duplicate()), Box::new(b.duplicate())),
            Real::Subtract(a, b) => Real::Subtract(Box::new(a.duplicate()), Box::new(b.duplicate())),
            Real::Multiply(a, b) => Real::Multiply(Box::new(a.duplicate()), Box::new(b.duplicate())),
            Real::Divide(a, b) => Real::Divide(Box::new(a.duplicate()), Box::new(b.duplicate())),
            Real::Remainder(a, b) => Real::Remainder(
                Box::new(a.duplicate()),
                Box::new(b.duplicate()),
            ),
            Real::Power(a, b) => Real::Power(Box::new(a.duplicate()), Box::new(b.duplicate())),
            Real::Negate(a) => Real::Negate(Box::new(a.duplicate())),
        }
    }
}

/// The value of an expression.
#[derive(Debug, PartialEq)]
pub enum Value {
    Integer(i64),
    Float(Real),
}

/// Why an expression has no value.
#[derive(Debug, PartialEq)]
pub enum Fault {
    Overflow,
    DivideByZero,
    NegativeFactorial,
    /// The factorial of a floating-point operand, which is undefined.
    FactorialOf(Real),
}

/// The binary operations of the evaluator.
#[derive(Clone, Copy, Debug, PartialEq, Eq)]
pub enum Binary {
    Add,
    Subtract,
    Multiply,
    Divide,
    Modulo,
    Power,
}

pub open spec fn real_of(v: Value) -> Real {
    match v {
        Value::Integer(i) => Real::Integer(i),
        Value::Float(r) => r,
    }
}

/// The floating-point term of `a op b`, both operands promoted.
pub open spec fn real_term(op: Binary, a: Real, b: Real) -> Real {
    let (a, b) = (Box::new(a), Box::new(b));
    match op {
        Binary::Add => Real::Add(a, b),
        Binary::Subtract => Real::Subtract(a, b),
        Binary::Multiply => Real::Multiply(a, b),
        Binary::Divide => Real::Divide(a, b),
        Binary::Modulo => Real::Remainder(a, b),
        Binary::Power => Real::Power(a, b),
    }
}

pub open spec fn checked(o: Option<i64>) -> Result<Value, Fault> {
    match o {
        Some(v) => Ok(Value::Integer(v)),
        None => Err(Fault::Overflow),
    }
}

pub open spec fn fits(x: int) -> bool {
    i64::MIN <= x <= i64::MAX
}

/// `x` multiplied by itself `n` times.
pub open spec fn pow(x: int, n: nat) -> int
    decreases n,
{
    if n == 0 {
        1
    } else {
        x * pow(x, (n - 1) as nat)
    }
}

/// `x` to the power `n`, when that fits in an `i64`.
pub open spec fn power(x: i64, n: i64) -> Result<Value, Fault>
    recommends
        n >= 0,
{
    let p = pow(x as int, n as nat);
    if fits(p) {
        Ok(Value::Integer(p as i64))
    } else {
        Err(Fault::Overflow)
    }
}

/// `a op b` on integers: checked where the result may not fit, except that
/// subtraction wraps; division by zero is a fault; a negative exponent
/// makes a floating-point power.
pub open spec fn integer_binary(op: Binary, x: i64, y: i64) -> Result<Value, Fault> {
    match op {
        Binary::Add => checked(x.checked_add(y)),
        Binary::Subtract => Ok(Value::Integer(x.wrapping_sub(y))),
        Binary::Multiply => checked(x.checked_mul(y)),
        Binary::Divide => if y == 0 {
            Err(Fault::DivideByZero)
        } else {
            checked(x.checked_div(y))
        },
        Binary::Modulo => if y == 0 {
            Err(Fault::DivideByZero)
        } else {
            checked(x.checked_rem(y))
        },
        Binary::Power => if y >= 0 {
            power(x, y)
        } else {
            Ok(Value::Float(real_term(op, Real::Integer(x), Real::Integer(y))))
        },
    }
}

/// `a op b`: integers stay integers, and any floating-point operand
/// promotes both.
pub open spec fn binary(op: Binary, a: Value, b: Value) -> Result<Value, Fault> {
    match (a, b) {
        (Value::Integer(x), Value::Integer(y)) => integer_binary(op, x, y),
        _ => Ok(Value::Float(real_term(op, real_of(a), real_of(b)))),
    }
}

pub open spec fn factorial(n: nat) -> int
    decreases n,
{
    if n == 0 {
        1
    } else {
        n * factorial((n - 1) as nat)
    }
}

pub open spec fn factorial_of(v: Value) -> Result<Value, Fault> {
    match v {
        Value::Integer(i) => if i < 0 {
            Err(Fault::NegativeFactorial)
        } else if fits(factorial(i as nat)) {
            Ok(Value::Integer(factorial(i as nat) as i64))
        } else {
            Err(Fault::Overflow)
        },
        Value::Float(r) => Err(Fault::FactorialOf(r)),
    }
}

pub open spec fn negate(v: Value) -> Value {
    match v {
        Value::Integer(i) => Value::Integer(0i64.wrapping_sub(i)),
        Value::Float(r) => Value::Float(Real::Negate(Box::new(r))),
    }
}

pub open spec fn literal_value(l: Literal) -> Value {
    match l {
        Literal::Integer(i) => Value::Integer(i),
        Literal::Float(s) => Value::Float(Real::Decimal(s)),
    }
}

/// Both operands' outcomes in order, the first fault winning, then `op`.
pub open spec fn then_binary(
    op: Binary,
    a: Result<Value, Fault>,
    b: Result<Value, Fault>,
) -> Result<Value, Fault> {
    match a {
        Err(f) => Err(f),
        Ok(a) => match b {
            Err(f) => Err(f),
            Ok(b) => binary(op, a, b),
        },
    }
}

/// The value of an expression, computed bottom-up; the first fault ends the
/// walk.
pub open spec fn evaluate(e: Expression) -> Result<Value, Fault>
    decreases e,
{
    match e {
        Expression::Literal(l) => Ok(literal_value(l)),
        Expression::Operation(op) => match op {
            Operation::Add(l, r) => then_binary(Binary::Add, evaluate(*l), evaluate(*r)),
            Operation::Subtract(l, r) => then_binary(Binary::Subtract, evaluate(*l), evaluate(*r)),
            Operation::Multiply(l, r) => then_binary(Binary::Multiply, evaluate(*l), evaluate(*r)),
            Operation::Divide(l, r) => then_binary(Binary::Divide, evaluate(*l), evaluate(*r)),
            Operation::Modulo(l, r) => then_binary(Binary::Modulo, evaluate(*l), evaluate(*r)),
            Operation::Exponentiate(l, r) => then_binary(Binary::Power, evaluate(*l), evaluate(*r)),
            Operation::Assert(x) => evaluate(*x),
            Operation::Negate(x) => match evaluate(*x) {
                Err(f) => Err(f),
                Ok(v) => Ok(negate(v)),
            },
            Operation::Factorial(x) => match evaluate(*x) {
                Err(f) => Err(f),
                Ok(v) => factorial_of(v),
            },
        },
    }
}

proof fn lemma_power_small(x: int, n: nat)
    requires
        -1 <= x <= 1,
    ensures
        x == 0 ==> pow(x, n) == if n == 0 { 1int } else { 0int },
        x == 1 ==> pow(x, n) == 1,
        x == -1 ==> pow(x, n) == if n % 2 == 0 { 1int } else { -1int },
    decreases n,
{
    if n > 0 {
        lemma_power_small(x, (n - 1) as nat);
    }
}

/// Once a power of a base of magnitude two or more leaves the `i64` range,
/// every higher power stays outside it.
proof fn lemma_power_escapes(x: int, k: nat, m: nat)
    requires
        x <= -2 || x >= 2,
        k <= m,
        !fits(pow(x, k)),
    ensures
        !fits(pow(x, m)),
    decreases m - k,
{
    if k < m {
        let p = pow(x, k);
        assert(pow(x, k + 1) == x * p);
        assert(!fits(x * p)) by (nonlinear_arith)
            requires
                x <= -2 || x >= 2,
                p < i64::MIN || p > i64::MAX,
        ;
        lemma_power_escapes(x, k + 1, m);
    }
}

proof fn lemma_factorial_grows(k: nat, m: nat)
    requires
        k <= m,
    ensures
        1 <= factorial(k) <= factorial(m),
    decreases m,
{
    if k < m {
        lemma_factorial_grows(k, (m - 1) as nat);
        assert(factorial((m - 1) as nat) <= m * factorial((m - 1) as nat)) by (nonlinear_arith)
            requires
                m >= 1,
                factorial((m - 1) as nat) >= 1,
        ;
    } else if m > 0 {
        lemma_factorial_grows(0, (m - 1) as nat);
        assert(1 <= m * factorial((m - 1) as nat)) by (nonlinear_arith)
            requires
                m >= 1,
                factorial((m - 1) as nat) >= 1,
        ;
    }
}

/// `x` to the power `n`, or `Overflow` where it does not fit.
pub fn integer_power(x: i64, n: i64) -> (r: Result<Value, Fault>)
    requires
        n >= 0,
    ensures
        r == power(x, n),
{
    if -1 <= x && x <= 1 {
        proof {
            lemma_power_small(x as int, n as nat);
        }
        let v: i64 = if x == 1 || n == 0 {
            1
        } else if x == 0 {
            0
        } else if n % 2 == 0 {
            1
        } else {
            -1
        };
        return Ok(Value::Integer(v));
    }
    let mut acc: i64 = 1;
    let mut i: i64 = 0;
    while i < n
        invariant
            0 <= i <= n,
            x <= -2 || x >= 2,
            acc == pow(x as int, i as nat),
        decreases n - i,
    {
        assert(pow(x as int, (i + 1) as nat) == x * acc);
        assert(acc * x == x * acc) by (nonlinear_arith);
        match acc.checked_mul(x) {
            Some(v) => {
                acc = v;
                i = i + 1;
            },
            None => {
                proof {
                    lemma_power_escapes(x as int, (i + 1) as nat, n as nat);
                }
                return Err(Fault::Overflow);
            },
        }
    }
    Ok(Value::Integer(acc))
}

/// `n!` for `n >= 0`, or `Overflow` where it does not fit.
pub fn integer_factorial(n: i64) -> (r: Result<Value, Fault>)
    requires
        n >= 0,
    ensures
        r == factorial_of(Value::Integer(n)),
{
    let mut acc: i64 = 1;
    let mut k: i64 = 0;
    while k < n
        invariant
            0 <= k <= n,
            acc == factorial(k as nat),
        decreases n - k,
    {
        let next = k + 1;
        match acc.checked_mul(next) {
            Some(v) => {
                acc = v;
                k = next;
            },
            None => {
                proof {
                    assert(factorial(next as nat) == next * acc);
                    assert(acc * next == next * acc) by (nonlinear_arith);
                    lemma_factorial_grows(next as nat, n as nat);
                }
                return Err(Fault::Overflow);
            },
        }
    }
    Ok(Value::Integer(acc))
}

fn into_real(v: Value) -> (r: Real)
    ensures
        r == real_of(v),
{
    match v {
        Value::Integer(i) => Real::Integer(i),
        Value::Float(r) => r,
    }
}

fn make_term(op: Binary, a: Real, b: Real) -> (r: Real)
    ensures
        r == real_term(op, a, b),
{
    let (a, b) = (Box::new(a), Box::new(b));
    match op {
        Binary::Add => Real::Add(a, b),
        Binary::Subtract => Real::Subtract(a, b),
        Binary::Multiply => Real::Multiply(a, b),
        Binary::Divide => Real::Divide(a, b),
        Binary::Modulo => Real::Remainder(a, b),
        Binary::Power => Real::Power(a, b),
    }
}

fn checked_value(o: Option<i64>) -> (r: Result<Value, Fault>)
    ensures
        r == checked(o),
{
    match o {
        Some(v) => Ok(Value::Integer(v)),
        None => Err(Fault::Overflow),
    }
}

/// `x op y` on two integers.
pub fn apply_integers(op: Binary, x: i64, y: i64) -> (r: Result<Value, Fault>)
    ensures
        r == integer_binary(op, x, y),
{
    match op {
        Binary::Add => checked_value(x.checked_add(y)),
        Binary::Subtract => Ok(Value::Integer(x.wrapping_sub(y))),
        Binary::Multiply => checked_value(x.checked_mul(y)),
        Binary::Divide => if y == 0 {
            Err(Fault::DivideByZero)
        } else {
            checked_value(x.checked_div(y))
        },
        Binary::Modulo => if y == 0 {
            Err(Fault::DivideByZero)
        } else {
            checked_value(x.checked_rem(y))
        },
        Binary::Power => if y >= 0 {
            integer_power(x, y)
        } else {
            Ok(Value::Float(make_term(op, Real::Integer(x), Real::Integer(y))))
        },
    }
}

/// `a op b` with the promotion rule.
pub fn apply_binary(op: Binary, a: Value, b: Value) -> (r: Result<Value, Fault>)
    ensures
        r == binary(op, a, b),
{
    match (a, b) {
        (Value::Integer(x), Value::Integer(y)) => apply_integers(op, x, y),
        (a, b) => Ok(Value::Float(make_term(op, into_real(a), into_real(b)))),
    }
}

} // verus!
