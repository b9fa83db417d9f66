use crate::ast::{Expression, Literal, Operation};
use crate::calculation;
use crate::error::Error;
use crate::lexer::Token;
use crate::parse::{
    infix_loop, number_literal, parse_atom, parse_expr, parse_tokens, postfix_loop, Syntax,
};
use crate::value::{evaluate, Fault, Real, Value};
use vstd::prelude::*;

verus! {

/// Two tokens, or lexical errors, of the same text.
pub open spec fn same_token(r1: Result<Token, Error>, r2: Result<Token, Error>) -> bool {
    match (r1, r2) {
        (Ok(Token::Number(n1)), Ok(Token::Number(n2))) => n1@ == n2@,
        (Ok(t1), Ok(t2)) => !(t1 is Number) && t1 == t2,
        (Err(Error::Parse(m1)), Err(Error::Parse(m2))) => m1@ == m2@,
        _ => false,
    }
}

/// Token sequences that agree token by token in text.
pub open spec fn same_tokens(t1: Seq<Result<Token, Error>>, t2: Seq<Result<Token, Error>>) -> bool {
    t1.len() == t2.len() && forall|k: int| 0 <= k < t1.len() ==> same_token(#[trigger] t1[k], t2[k])
}

/// Trees of the same shape whose decimal literals have the same text.
pub open spec fn same_tree(e1: Expression, e2: Expression) -> bool
    decreases e1,
{
    match (e1, e2) {
        (Expression::Literal(Literal::Integer(a)), Expression::Literal(Literal::Integer(b))) => a
            == b,
        (Expression::Literal(Literal::Float(a)), Expression::Literal(Literal::Float(b))) => a@
            == b@,
        (Expression::Operation(o1), Expression::Operation(o2)) => match (o1, o2) {
            (Operation::Add(a1, b1), Operation::Add(a2, b2)) => same_tree(*a1, *a2) && same_tree(
                *b1,
                *b2,
            ),
            (Operation::Subtract(a1, b1), Operation::Subtract(a2, b2)) => same_tree(*a1, *a2)
                && same_tree(*b1, *b2),
            (Operation::Multiply(a1, b1), Operation::Multiply(a2, b2)) => same_tree(*a1, *a2)
                && same_tree(*b1, *b2),
            (Operation::Divide(a1, b1), Operation::Divide(a2, b2)) => same_tree(*a1, *a2)
                && same_tree(*b1, *b2),
            (Operation::Modulo(a1, b1), Operation::Modulo(a2, b2)) => same_tree(*a1, *a2)
                && same_tree(*b1, *b2),
            (Operation::Exponentiate(a1, b1), Operation::Exponentiate(a2, b2)) => same_tree(
                *a1,
                *a2,
            ) && same_tree(*b1, *b2),
            (Operation::Assert(a1), Operation::Assert(a2)) => same_tree(*a1, *a2),
            (Operation::Negate(a1), Operation::Negate(a2)) => same_tree(*a1, *a2),
            (Operation::Factorial(a1), Operation::Factorial(a2)) => same_tree(*a1, *a2),
            _ => false,
        },
        _ => false,
    }
}

/// Parse failures that report the same thing.
pub open spec fn same_syntax(f1: Syntax, f2: Syntax) -> bool {
    match (f1, f2) {
        (Syntax::EndOfInput, Syntax::EndOfInput) => true,
        (Syntax::NumberTooLarge, Syntax::NumberTooLarge) => true,
        (Syntax::Lexical(e1), Syntax::Lexical(e2)) => same_token(Err(e1), Err(e2)),
        (Syntax::ExpectedAtom(a), Syntax::ExpectedAtom(b)) => same_token(Ok(a), Ok(b)),
        (Syntax::ExpectedToken(x1, a), Syntax::ExpectedToken(x2, b)) => x1 == x2 && same_token(
            Ok(a),
            Ok(b),
        ),
        (Syntax::UnexpectedToken(a), Syntax::UnexpectedToken(b)) => same_token(Ok(a), Ok(b)),
        _ => false,
    }
}

pub open spec fn same_parse(
    r1: Result<(Expression, int), Syntax>,
    r2: Result<(Expression, int), Syntax>,
) -> bool {
    match (r1, r2) {
        (Ok((e1, q1)), Ok((e2, q2))) => q1 == q2 && same_tree(e1, e2),
        (Err(f1), Err(f2)) => same_syntax(f1, f2),
        _ => false,
    }
}

proof fn lemma_same_parse_expr(
    t1: Seq<Result<Token, Error>>,
    t2: Seq<Result<Token, Error>>,
    pos: int,
    min: int,
)
    requires
        same_tokens(t1, t2),
    ensures
        same_parse(parse_expr(t1, pos, min), parse_expr(t2, pos, min)),
    decreases t1.len() - pos, 3int,
{
    if 0 <= pos <= t1.len() {
        assert(pos < t1.len() ==> same_token(t1[pos], t2[pos]));
        if pos < t1.len() && t1[pos] is Ok && crate::parse::prefix_at(t1, pos, min) is Some {
            let o = crate::parse::prefix_at(t1, pos, min)->Some_0;
            lemma_same_parse_expr(t1, t2, pos + 1, o.spec_prec() + o.spec_assoc());
        } else {
            lemma_same_parse_atom(t1, t2, pos);
        }
        let h1 = match crate::parse::prefix_at(t1, pos, min) {
            Some(o) => match parse_expr(t1, pos + 1, o.spec_prec() + o.spec_assoc()) {
                Ok((e, q)) => Ok((o.spec_build(e), q)),
                Err(f) => Err(f),
            },
            None => parse_atom(t1, pos),
        };
        let h2 = match crate::parse::prefix_at(t2, pos, min) {
            Some(o) => match parse_expr(t2, pos + 1, o.spec_prec() + o.spec_assoc()) {
                Ok((e, q)) => Ok((o.spec_build(e), q)),
                Err(f) => Err(f),
            },
            None => parse_atom(t2, pos),
        };
        assert(same_parse(h1, h2));
        if h1 is Ok {
            let (l1, q) = h1->Ok_0;
            let (l2, q2) = h2->Ok_0;
            if pos < q <= t1.len() {
                lemma_same_postfix(t1, t2, q, l1, l2, min);
            }
        }
    }
}

proof fn lemma_same_parse_atom(t1: Seq<Result<Token, Error>>, t2: Seq<Result<Token, Error>>, pos: int)
    requires
        same_tokens(t1, t2),
    ensures
        same_parse(parse_atom(t1, pos), parse_atom(t2, pos)),
    decreases t1.len() - pos, 2int,
{
    if 0 <= pos < t1.len() {
        assert(same_token(t1[pos], t2[pos]));
        if t1[pos] == Ok::<Token, Error>(Token::OpenParen) {
            lemma_same_parse_expr(t1, t2, pos + 1, 0);
            let r1 = parse_expr(t1, pos + 1, 0);
            if r1 is Ok {
                let q = r1->Ok_0.1;
                if 0 <= q < t1.len() {
                    assert(same_token(t1[q], t2[q]));
                }
            }
        }
    }
}

proof fn lemma_same_postfix(
    t1: Seq<Result<Token, Error>>,
    t2: Seq<Result<Token, Error>>,
    pos: int,
    l1: Expression,
    l2: Expression,
    min: int,
)
    requires
        same_tokens(t1, t2),
        same_tree(l1, l2),
    ensures
        same_parse(postfix_loop(t1, pos, l1, min), postfix_loop(t2, pos, l2, min)),
    decreases t1.len() - pos, 1int,
{
    assert(0 <= pos < t1.len() ==> same_token(t1[pos], t2[pos]));
    match crate::parse::postfix_at(t1, pos, min) {
        Some(o) => {
            lemma_same_postfix(t1, t2, pos + 1, o.spec_build(l1), o.spec_build(l2), min);
        },
        None => {
            lemma_same_infix(t1, t2, pos, l1, l2, min);
        },
    }
}

proof fn lemma_same_infix(
    t1: Seq<Result<Token, Error>>,
    t2: Seq<Result<Token, Error>>,
    pos: int,
    l1: Expression,
    l2: Expression,
    min: int,
)
    requires
        same_tokens(t1, t2),
        same_tree(l1, l2),
    ensures
        same_parse(infix_loop(t1, pos, l1, min), infix_loop(t2, pos, l2, min)),
    decreases t1.len() - pos, 0int,
{
    assert(0 <= pos < t1.len() ==> same_token(t1[pos], t2[pos]));
    match crate::parse::infix_at(t1, pos, min) {
        Some(o) => {
            let m = o.spec_prec() + o.spec_assoc();
            lemma_same_parse_expr(t1, t2, pos + 1, m);
            let r1 = parse_expr(t1, pos + 1, m);
            let r2 = parse_expr(t2, pos + 1, m);
            if r1 is Ok {
                let (x1, q) = r1->Ok_0;
                let (x2, q2) = r2->Ok_0;
                if pos < q <= t1.len() {
                    lemma_same_infix(t1, t2, q, o.spec_build(l1, x1), o.spec_build(l2, x2), min);
                }
            }
        },
        None => {},
    }
}

/// Floating-point terms of the same shape whose decimals have the same
/// text.
pub open spec fn same_real(r1: Real, r2: Real) -> bool
    decreases r1,
{
    match (r1, r2) {
        (Real::Decimal(a), Real::Decimal(b)) => a@ == b@,
        (Real::Integer(a), Real::Integer(b)) => a == b,
        (Real::Add(a1, b1), Real::Add(a2, b2)) => same_real(*a1, *a2) && same_real(*b1, *b2),
        (Real::Subtract(a1, b1), Real::Subtract(a2, b2)) => same_real(*a1, *a2) && same_real(
            *b1,
            *b2,
        ),
        (Real::Multiply(a1, b1), Real::Multiply(a2, b2)) => same_real(*a1, *a2) && same_real(
            *b1,
            *b2,
        ),
        (Real::Divide(a1, b1), Real::Divide(a2, b2)) => same_real(*a1, *a2) && same_real(
            *b1,
            *b2,
        ),
        (Real::Remainder(a1, b1), Real::Remainder(a2, b2)) => same_real(*a1, *a2) && same_real(
            *b1,
            *b2,
        ),
        (Real::Power(a1, b1), Real::Power(a2, b2)) => same_real(*a1, *a2) && same_real(*b1, *b2),
        (Real::Negate(a1), Real::Negate(a2)) => same_real(*a1, *a2),
        _ => false,
    }
}

pub open spec fn same_value(v1: Value, v2: Value) -> bool {
    match (v1, v2) {
        (Value::Integer(a), Value::Integer(b)) => a == b,
        (Value::Float(a), Value::Float(b)) => same_real(a, b),
        _ => false,
    }
}

pub open spec fn same_eval(r1: Result<Value, Fault>, r2: Result<Value, Fault>) -> bool {
    match (r1, r2) {
        (Ok(v1), Ok(v2)) => same_value(v1, v2),
        (Err(Fault::FactorialOf(a)), Err(Fault::FactorialOf(b))) => same_real(a, b),
        (Err(f1), Err(f2)) => !(f1 is FactorialOf) && f1 == f2,
        _ => false,
    }
}

proof fn lemma_same_real_refl(r: Real)
    ensures
        same_real(r, r),
    decreases r,
{
    match r {
        Real::Add(a, b) | Real::Subtract(a, b) | Real::Multiply(a, b) | Real::Divide(a, b)
        | Real::Remainder(a, b) | Real::Power(a, b) => {
            lemma_same_real_refl(*a);
            lemma_same_real_refl(*b);
        },
        Real::Negate(a) => {
            lemma_same_real_refl(*a);
        },
        _ => {},
    }
}

proof fn lemma_same_binary(op: crate::value::Binary, a1: Value, b1: Value, a2: Value, b2: Value)
    requires
        same_value(a1, a2),
        same_value(b1, b2),
    ensures
        same_eval(crate::value::binary(op, a1, b1), crate::value::binary(op, a2, b2)),
{
    let r = crate::value::binary(op, a1, b1);
    match (a1, b1) {
        (Value::Integer(x), Value::Integer(y)) => {
            if r is Ok && r->Ok_0 is Float {
                lemma_same_real_refl(r->Ok_0->Float_0);
            }
        },
        _ => {
            let (x1, y1) = (crate::value::real_of(a1), crate::value::real_of(b1));
            let (x2, y2) = (crate::value::real_of(a2), crate::value::real_of(b2));
            assert(same_real(x1, x2));
            assert(same_real(y1, y2));
        },
    }
}

proof fn lemma_same_then(
    op: crate::value::Binary,
    r1: Result<Value, Fault>,
    s1: Result<Value, Fault>,
    r2: Result<Value, Fault>,
    s2: Result<Value, Fault>,
)
    requires
        same_eval(r1, r2),
        same_eval(s1, s2),
    ensures
        same_eval(crate::value::then_binary(op, r1, s1), crate::value::then_binary(op, r2, s2)),
{
    if r1 is Ok && s1 is Ok {
        lemma_same_binary(op, r1->Ok_0, s1->Ok_0, r2->Ok_0, s2->Ok_0);
    }
}

proof fn lemma_same_evaluate(e1: Expression, e2: Expression)
    requires
        same_tree(e1, e2),
    ensures
        same_eval(evaluate(e1), evaluate(e2)),
    decreases e1,
{
    match (e1, e2) {
        (Expression::Operation(o1), Expression::Operation(o2)) => {
            let op = match o1 {
                Operation::Add(_, _) => crate::value::Binary::Add,
                Operation::Subtract(_, _) => crate::value::Binary::Subtract,
                Operation::Multiply(_, _) => crate::value::Binary::Multiply,
                Operation::Divide(_, _) => crate::value::Binary::Divide,
                Operation::Modulo(_, _) => crate::value::Binary::Modulo,
                _ => crate::value::Binary::Power,
            };
            match (o1, o2) {
                (Operation::Add(a1, b1), Operation::Add(a2, b2))
                | (Operation::Subtract(a1, b1), Operation::Subtract(a2, b2))
                | (Operation::Multiply(a1, b1), Operation::Multiply(a2, b2))
                | (Operation::Divide(a1, b1), Operation::Divide(a2, b2))
                | (Operation::Modulo(a1, b1), Operation::Modulo(a2, b2))
                | (Operation::Exponentiate(a1, b1), Operation::Exponentiate(a2, b2)) => {
                    lemma_same_evaluate(*a1, *a2);
                    lemma_same_evaluate(*b1, *b2);
                    lemma_same_then(op, evaluate(*a1), evaluate(*b1), evaluate(*a2), evaluate(*b2));
                },
                (Operation::Assert(a1), Operation::Assert(a2))
                | (Operation::Negate(a1), Operation::Negate(a2))
                | (Operation::Factorial(a1), Operation::Factorial(a2)) => {
                    lemma_same_evaluate(*a1, *a2);
                },
                _ => {},
            }
        },
        _ => {},
    }
}

/// Outcomes that report the same thing: values of the same text, or errors
/// of the same kind with the same message text.
pub open spec fn same_outcome(r1: Result<Value, Error>, r2: Result<Value, Error>) -> bool {
    match (r1, r2) {
        (Ok(v1), Ok(v2)) => same_value(v1, v2),
        (Err(Error::Parse(m1)), Err(Error::Parse(m2))) => m1@ == m2@,
        (Err(Error::Value(m1)), Err(Error::Value(m2))) => m1@ == m2@,
        (Err(Error::NonIntegerFactorial(x)), Err(Error::NonIntegerFactorial(y))) => same_real(x, y),
        _ => false,
    }
}

/// Token sequences of the same text evaluate to outcomes that report the
/// same thing.
pub proof fn lemma_same_calculation(
    t1: Seq<Result<Token, Error>>,
    t2: Seq<Result<Token, Error>>,
    pos: int,
    r1: Result<Value, Error>,
    r2: Result<Value, Error>,
)
    requires
        same_tokens(t1, t2),
        calculation(t1, pos, r1),
        calculation(t2, pos, r2),
    ensures
        same_outcome(r1, r2),
{
    lemma_same_parse_expr(t1, t2, pos, 0);
    let p1 = parse_expr(t1, pos, 0);
    let p2 = parse_expr(t2, pos, 0);
    if p1 is Ok {
        let (e1, q) = p1->Ok_0;
        let (e2, q2) = p2->Ok_0;
        if 0 <= q < t1.len() {
            assert(same_token(t1[q], t2[q]));
        } else {
            lemma_same_evaluate(e1, e2);
        }
    }
}

} // verus!
