use calc::ast::{Expression, Literal, Operation};
use calc::error::Error;
use calc::parse::Parser;
use calc::value::{Real, Value};
use calc::{calculate, Calculator};

fn reduce(r: &Real) -> f64 {
    match r {
        Real::Decimal(s) => s.parse().unwrap(),
        Real::Integer(i) => *i as f64,
        Real::Add(a, b) => reduce(a) + reduce(b),
        Real::Subtract(a, b) => reduce(a) - reduce(b),
        Real::Multiply(a, b) => reduce(a) * reduce(b),
        Real::Divide(a, b) => reduce(a) / reduce(b),
        Real::Remainder(a, b) => reduce(a) % reduce(b),
        Real::Power(a, b) => reduce(a).powf(reduce(b)),
        Real::Negate(a) => -reduce(a),
    }
}

fn float_of(r: Result<Value, Error>) -> f64 {
    match r {
        Ok(Value::Float(x)) => reduce(&x),
        other => panic!("not a float: {:?}", other),
    }
}

fn value_message(r: Result<Value, Error>) -> String {
    match r {
        Err(Error::Value(m)) => m,
        other => panic!("not a value error: {:?}", other),
    }
}

fn parse_message(r: Result<Value, Error>) -> String {
    match r {
        Err(Error::Parse(m)) => m,
        other => panic!("not a parse error: {:?}", other),
    }
}

#[test]
fn test_calculate() {
    {
        let calculator = calculate("1+1");
        assert_eq!(calculator, Ok(Value::Integer(2)))
    }

    {
        let calculator = calculate("1*1");
        assert_eq!(calculator, Ok(Value::Integer(1)))
    }

    {
        let calculator = calculate("2*4");
        assert_eq!(calculator, Ok(Value::Integer(8)))
    }

    {
        let calculator = calculate("4!");
        assert_eq!(calculator, Ok(Value::Integer(24)))
    }

    {
        let calculator = calculate("31%15");
        assert_eq!(calculator, Ok(Value::Integer(1)))
    }

    {
        let calculator = calculate("1*!1");
        assert!(calculator.is_err())
    }

    {
        let calculator = calculate("(1+1)*2+4!");
        assert_eq!(calculator, Ok(Value::Integer(28)))
    }

    {
        let calculator = float_of(calculate(&"(1.1+1.1)*2+4!".to_string()));
        assert_eq!(calculator, 28.4)
    }
}

#[test]
fn integer_pairs_add_multiply_subtract() {
    assert_eq!(calculate("40+2"), Ok(Value::Integer(42)));
    assert_eq!(calculate("6*7"), Ok(Value::Integer(42)));
    assert_eq!(calculate("2-9"), Ok(Value::Integer(-7)));
    assert_eq!(calculate("9/2"), Ok(Value::Integer(4)));
    assert_eq!(calculate("-9/2"), Ok(Value::Integer(-4)));
}

#[test]
fn factorials() {
    assert_eq!(calculate("4!"), Ok(Value::Integer(24)));
    assert_eq!(calculate("0!"), Ok(Value::Integer(1)));
    assert_eq!(value_message(calculate("4!!")), "Integer overflow");
    assert_eq!(calculate("3!!"), Ok(Value::Integer(720)));
    assert_eq!(calculate("20!"), Ok(Value::Integer(2432902008176640000)));
    assert_eq!(value_message(calculate("21!")), "Integer overflow");
    assert_eq!(
        value_message(calculate("(-1)!")),
        "Can't take factorial of negative number"
    );
}

#[test]
fn negative_factorial_is_value_error() {
    // Prefix `-` binds tighter than `!`, so this is `(-1)!`.
    assert_eq!(
        value_message(calculate("-1!")),
        "Can't take factorial of negative number"
    );
    assert_eq!(
        value_message(calculate("(0-1)!")),
        "Can't take factorial of negative number"
    );
}

#[test]
fn factorial_of_float_is_value_error() {
    match calculate("1.5!") {
        Err(Error::NonIntegerFactorial(r)) => assert_eq!(reduce(&r), 1.5),
        other => panic!("unexpected {:?}", other),
    }
}

#[test]
fn modulo_and_division_by_zero() {
    assert_eq!(calculate("31%15"), Ok(Value::Integer(1)));
    assert_eq!(value_message(calculate("5%0")), "Can't divide by zero");
    assert_eq!(value_message(calculate("5/0")), "Can't divide by zero");
    assert!(float_of(calculate("5/0.0")).is_infinite());
}

#[test]
fn mixed_expression() {
    assert_eq!(calculate("(1+1)*2+4!"), Ok(Value::Integer(28)));
}

#[test]
fn mixed_float_expression() {
    let x = float_of(calculate("(1.1+1.1)*2+4!"));
    assert!((x - 28.4).abs() < 1e-9);
}

#[test]
fn exponent_is_right_associative() {
    assert_eq!(calculate("2^3^2"), Ok(Value::Integer(512)));
    assert_eq!(calculate("(2^3)^2"), Ok(Value::Integer(64)));
    assert_eq!(calculate("2^0"), Ok(Value::Integer(1)));
    assert_eq!(calculate("(0-2)^63"), Ok(Value::Integer(i64::MIN)));
    assert_eq!(value_message(calculate("2^63")), "Integer overflow");
    assert_eq!(float_of(calculate("2^(0-1)")), 0.5);
}

#[test]
fn postfix_where_atom_expected_is_parse_error() {
    assert_eq!(
        parse_message(calculate("1*!1")),
        "Expected expression atom, found !"
    );
}

#[test]
fn integer_overflow() {
    assert_eq!(
        value_message(calculate("9223372036854775807+1")),
        "Integer overflow"
    );
    assert_eq!(
        value_message(calculate("9223372036854775807*2")),
        "Integer overflow"
    );
    assert_eq!(
        parse_message(calculate("9223372036854775808")),
        "number too large to fit in target type"
    );
}

#[test]
fn evaluation_is_repeatable() {
    for input in ["(1+1)*2+4!", "1 + m", "5%0", "2^3^2"] {
        assert_eq!(calculate(input), calculate(input));
    }
}

#[test]
fn stray_character_is_parse_error() {
    assert_eq!(parse_message(calculate("1 + m")), "Unexpected character m");
}

#[test]
fn parse_errors() {
    assert_eq!(parse_message(calculate("")), "Unexpected end of input");
    assert_eq!(parse_message(calculate("(1+2")), "Unexpected end of input");
    assert_eq!(parse_message(calculate("(1+2(")), "Expected token ), found (");
    assert_eq!(parse_message(calculate("1 2")), "Unexpected token 2");
    assert_eq!(parse_message(calculate("1)")), "Unexpected token )");
    assert_eq!(
        parse_message(calculate("(1 2)")),
        "Expected token ), found 2"
    );
    assert_eq!(parse_message(calculate("1 < 2")), "Unexpected token <");
}

#[test]
fn prefix_operators_stack() {
    assert_eq!(calculate("--1"), Ok(Value::Integer(1)));
    assert_eq!(calculate("+-+3"), Ok(Value::Integer(-3)));
    assert_eq!(calculate("-2^2"), Ok(Value::Integer(4)));
}

#[test]
fn parser_builds_tree() {
    let mut parser = Parser::new("1-2/3");
    let tree = parser.parse().unwrap();
    let lit = |i| Box::new(Expression::Literal(Literal::Integer(i)));
    assert_eq!(
        tree,
        Expression::Operation(Operation::Subtract(
            lit(1),
            Box::new(Expression::Operation(Operation::Divide(lit(2), lit(3))))
        ))
    );
}

#[test]
fn calculator_second_call_finds_end() {
    let mut c = Calculator::new("1+2");
    assert_eq!(c.calculate(), Ok(Value::Integer(3)));
    assert_eq!(parse_message(c.calculate()), "Unexpected end of input");
}

#[test]
fn integer_edges() {
    assert_eq!(
        calculate("(0-9223372036854775807)-2"),
        Ok(Value::Integer(i64::MAX))
    );
    assert_eq!(
        value_message(calculate("(0-9223372036854775807-1)/(0-1)")),
        "Integer overflow"
    );
    assert_eq!(calculate("(0-7)%3"), Ok(Value::Integer(-1)));
    assert_eq!(calculate("1^9999999999"), Ok(Value::Integer(1)));
    assert_eq!(calculate("(0-1)^9999999999"), Ok(Value::Integer(-1)));
    assert_eq!(calculate("0^0"), Ok(Value::Integer(1)));
}

#[test]
fn float_promotion() {
    assert_eq!(float_of(calculate("1.5+1")), 2.5);
    assert_eq!(float_of(calculate("-1.5")), -1.5);
    assert_eq!(float_of(calculate("7.5%2")), 1.5);
    assert_eq!(float_of(calculate("3*0.5")), 1.5);
    assert_eq!(float_of(calculate("2^0.5")), 2f64.sqrt());
    assert_eq!(float_of(calculate("1.")), 1.0);
}

#[test]
fn signed_integer_pairs() {
    assert_eq!(calculate("-5+-3"), Ok(Value::Integer(-8)));
    assert_eq!(calculate("5--3"), Ok(Value::Integer(8)));
    assert_eq!(calculate("-5*-3"), Ok(Value::Integer(15)));
    assert_eq!(calculate("-5*3"), Ok(Value::Integer(-15)));
    assert_eq!(
        calculate("-9223372036854775807-1"),
        Ok(Value::Integer(i64::MIN))
    );
    assert_eq!(
        calculate("-9223372036854775807+-1"),
        Ok(Value::Integer(i64::MIN))
    );
}
