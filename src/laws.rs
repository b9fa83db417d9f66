use crate::ast::{Expression, Literal, Operation};
use crate::calculation;
use crate::error::Error;
use crate::lexer::{
    is_digit, is_white_space, lexed, lexes, number_end, skip_digits, skip_space, symbol_at,
    symbol_of, tokenization, Token,
};
use crate::parse::{
    all_digits, digits_value, infix_loop, lemma_digits_value_grows, number_literal, parse_atom,
    parse_expr, parse_tokens, postfix_loop, Syntax,
};
use crate::same::{lemma_same_calculation, same_outcome, same_token, same_tokens};
use crate::value::{evaluate, Fault, Value};
use vstd::prelude::*;

verus! {

/// The tree of `x op y` for `op` one of `+`, `*`, `-`.
pub open spec fn pair_tree(op: Token, x: Expression, y: Expression) -> Expression {
    let (x, y) = (Box::new(x), Box::new(y));
    if op is Plus {
        Expression::Operation(Operation::Add(x, y))
    } else if op is Asterisk {
        Expression::Operation(Operation::Multiply(x, y))
    } else {
        Expression::Operation(Operation::Subtract(x, y))
    }
}

pub open spec fn integer_literal(s: String) -> Expression {
    Expression::Literal(Literal::Integer(digits_value(s@) as i64))
}

/// An integer literal, negated where `neg` holds.
pub open spec fn operand_tree(neg: bool, s: String) -> Expression {
    if neg {
        Expression::Operation(Operation::Negate(Box::new(integer_literal(s))))
    } else {
        integer_literal(s)
    }
}

/// A `-` token where `neg` holds, else nothing.
pub open spec fn sign_token(neg: bool) -> Seq<Result<Token, Error>> {
    if neg {
        seq![Ok(Token::Minus)]
    } else {
        seq![]
    }
}

/// The tokens of `[-]a op [-]b`.
pub open spec fn pair_tokens(na: bool, a: String, op: Token, nb: bool, b: String) -> Seq<
    Result<Token, Error>,
> {
    sign_token(na) + seq![Ok(Token::Number(a)), Ok(op)] + sign_token(nb) + seq![
        Ok(Token::Number(b)),
    ]
}

pub open spec fn signed(neg: bool, x: int) -> int {
    if neg {
        -x
    } else {
        x
    }
}

pub open spec fn is_pair_operator(t: Token) -> bool {
    t is Plus || t is Asterisk || t is Minus
}

/// An operand, `-` and a number or a number alone, starting at `p`: its
/// tree ends where the number does, and nothing after it binds at the
/// precedence of a prefix operator.
proof fn lemma_operand(toks: Seq<Result<Token, Error>>, p: int, neg: bool, n: String, m: int)
    requires
        0 <= p,
        0 <= m <= 9,
        neg ==> p < toks.len() && toks[p] == Ok::<Token, Error>(Token::Minus),
        p + (if neg { 1int } else { 0int }) < toks.len(),
        toks[p + (if neg { 1int } else { 0int })] == Ok::<Token, Error>(Token::Number(n)),
        all_digits(n@),
        digits_value(n@) <= i64::MAX,
        ({
            let q = p + (if neg { 1int } else { 0int }) + 1;
            q < toks.len() ==> toks[q] is Ok && is_pair_operator(toks[q]->Ok_0)
        }),
    ensures
        ({
            let q = p + (if neg { 1int } else { 0int }) + 1;
            parse_expr(toks, p, m) == postfix_loop(toks, q, operand_tree(neg, n), m)
        }),
{
    let lit = integer_literal(n);
    assert(number_literal(n) == Ok::<Expression, Syntax>(lit));
    if neg {
        let q = p + 2;
        assert(parse_atom(toks, p + 1) == Ok::<(Expression, int), Syntax>((lit, q)));
        assert(infix_loop(toks, q, lit, 9) == Ok::<(Expression, int), Syntax>((lit, q)));
        assert(postfix_loop(toks, q, lit, 9) == Ok::<(Expression, int), Syntax>((lit, q)));
        assert(parse_expr(toks, p + 1, 9) == Ok::<(Expression, int), Syntax>((lit, q)));
    } else {
        assert(parse_atom(toks, p) == Ok::<(Expression, int), Syntax>((lit, p + 1)));
    }
}

proof fn lemma_parse_pair(na: bool, a: String, op: Token, nb: bool, b: String)
    requires
        all_digits(a@),
        all_digits(b@),
        digits_value(a@) <= i64::MAX,
        digits_value(b@) <= i64::MAX,
        is_pair_operator(op),
    ensures
        parse_tokens(pair_tokens(na, a, op, nb, b), 0) == Ok::<Expression, Syntax>(
            pair_tree(op, operand_tree(na, a), operand_tree(nb, b)),
        ),
{
    let toks = pair_tokens(na, a, op, nb, b);
    let ka: int = if na { 1 } else { 0 };
    let kop = ka + 1;
    let pb = kop + 1;
    let kb = pb + if nb { 1int } else { 0int };
    let len = kb + 1;
    assert(toks.len() == len);
    assert(na ==> toks[0] == Ok::<Token, Error>(Token::Minus));
    assert(toks[ka] == Ok::<Token, Error>(Token::Number(a)));
    assert(toks[kop] == Ok::<Token, Error>(op));
    assert(nb ==> toks[pb] == Ok::<Token, Error>(Token::Minus));
    assert(toks[kb] == Ok::<Token, Error>(Token::Number(b)));
    let ta = operand_tree(na, a);
    let tb = operand_tree(nb, b);
    lemma_operand(toks, 0, na, a, 0);
    assert(postfix_loop(toks, kop, ta, 0) == infix_loop(toks, kop, ta, 0));
    let o = crate::parse::infix_of(op).unwrap();
    let mm = o.spec_prec() + o.spec_assoc();
    lemma_operand(toks, pb, nb, b, mm);
    assert(infix_loop(toks, len, tb, mm) == Ok::<(Expression, int), Syntax>((tb, len)));
    assert(postfix_loop(toks, len, tb, mm) == Ok::<(Expression, int), Syntax>((tb, len)));
    let tree = pair_tree(op, ta, tb);
    assert(o.spec_build(ta, tb) == tree);
    assert(infix_loop(toks, len, tree, 0) == Ok::<(Expression, int), Syntax>((tree, len)));
    assert(infix_loop(toks, kop, ta, 0) == infix_loop(toks, len, tree, 0));
    assert(parse_expr(toks, 0, 0) == Ok::<(Expression, int), Syntax>((tree, len)));
}

/// Two integer operands, each a number with or without a leading `-`,
/// joined by `+`, `*` or `-`, evaluate to the integer sum, product or
/// difference of the numbers they write, whenever the result fits in an
/// `i64`.
pub proof fn law_integer_pair(
    na: bool,
    a: String,
    op: Token,
    nb: bool,
    b: String,
    r: Result<Value, Error>,
)
    requires
        all_digits(a@),
        all_digits(b@),
        digits_value(a@) <= i64::MAX,
        digits_value(b@) <= i64::MAX,
        is_pair_operator(op),
        calculation(pair_tokens(na, a, op, nb, b), 0, r),
    ensures
        ({
            let (x, y) = (signed(na, digits_value(a@)), signed(nb, digits_value(b@)));
            let z = if op is Plus {
                x + y
            } else if op is Asterisk {
                x * y
            } else {
                x - y
            };
            i64::MIN <= z <= i64::MAX ==> r == Ok::<Value, Error>(Value::Integer(z as i64))
        }),
{
    lemma_digits_value_grows(a@, 0, a@.len() as int);
    lemma_digits_value_grows(b@, 0, b@.len() as int);
    assert(a@.take(a@.len() as int) =~= a@);
    assert(b@.take(b@.len() as int) =~= b@);
    lemma_parse_pair(na, a, op, nb, b);
    let x = signed(na, digits_value(a@));
    let y = signed(nb, digits_value(b@));
    assert(evaluate(integer_literal(a)) == Ok::<Value, Fault>(
        Value::Integer(digits_value(a@) as i64),
    ));
    assert(evaluate(integer_literal(b)) == Ok::<Value, Fault>(
        Value::Integer(digits_value(b@) as i64),
    ));
    assert(evaluate(operand_tree(na, a)) == Ok::<Value, Fault>(Value::Integer(x as i64)));
    assert(evaluate(operand_tree(nb, b)) == Ok::<Value, Fault>(Value::Integer(y as i64)));
}

proof fn lemma_digit_run(s: Seq<char>, i: int, e: int)
    requires
        0 <= i <= e <= s.len(),
        forall|k: int| i <= k < e ==> is_digit(#[trigger] s[k]),
        e == s.len() || !is_digit(s[e]),
    ensures
        skip_digits(s, i) == e,
    decreases e - i,
{
    if i < e {
        lemma_digit_run(s, i + 1, e);
    }
}

proof fn lemma_pull_at(s: Seq<char>, toks: Seq<Result<Token, Error>>, ps: Seq<int>, k: int)
    requires
        tokenization(s, toks, ps),
        0 <= k < toks.len(),
    ensures
        lexed(s, ps[k], Some(toks[k]), ps[k + 1]),
{
}

/// Where the `k`th pull starts at a character that is no white space,
/// there is a `k`th token.
proof fn lemma_next_pull(s: Seq<char>, toks: Seq<Result<Token, Error>>, ps: Seq<int>, k: int)
    requires
        tokenization(s, toks, ps),
        0 <= k <= toks.len(),
        0 <= ps[k] < s.len(),
        !is_white_space(s[ps[k]]),
    ensures
        k < toks.len(),
        lexed(s, ps[k], Some(toks[k]), ps[k + 1]),
{
    assert(skip_space(s, ps[k]) == ps[k]);
    if k < toks.len() {
        lemma_pull_at(s, toks, ps, k);
    }
}

/// Where the `k`th pull starts at the end of the text, there are `k`
/// tokens.
proof fn lemma_last_pull(s: Seq<char>, toks: Seq<Result<Token, Error>>, ps: Seq<int>, k: int)
    requires
        tokenization(s, toks, ps),
        0 <= k <= toks.len(),
        ps[k] == s.len(),
    ensures
        toks.len() == k,
{
    assert(skip_space(s, s.len() as int) == s.len());
    if k < toks.len() {
        lemma_pull_at(s, toks, ps, k);
    }
}

/// The operator token that `c` is, for `+`, `*`, `-`.
pub open spec fn pair_operator(c: char) -> Token {
    if c == '+' {
        Token::Plus
    } else if c == '*' {
        Token::Asterisk
    } else {
        Token::Minus
    }
}

/// `-` where `neg` holds, else nothing.
pub open spec fn sign_text(neg: bool) -> Seq<char> {
    if neg {
        seq!['-']
    } else {
        seq![]
    }
}

/// The text `[-]a c [-]b`.
pub open spec fn pair_text(na: bool, a: Seq<char>, c: char, nb: bool, b: Seq<char>) -> Seq<char> {
    sign_text(na) + a + seq![c] + sign_text(nb) + b
}

/// The text `[-]a c [-]b`, with `a` and `b` strings of digits and `c` one
/// of `+`, `*`, `-`, lexes into the tokens of `[-]a op [-]b`.
proof fn lemma_lex_pair(
    na: bool,
    a: Seq<char>,
    c: char,
    nb: bool,
    b: Seq<char>,
    toks: Seq<Result<Token, Error>>,
)
    requires
        a.len() > 0,
        b.len() > 0,
        all_digits(a),
        all_digits(b),
        c == '+' || c == '*' || c == '-',
        lexes(pair_text(na, a, c, nb, b), toks),
    ensures
        exists|sa: String, sb: String|
            sa@ == a && sb@ == b && toks == pair_tokens(na, sa, pair_operator(c), nb, sb),
{
    let s = pair_text(na, a, c, nb, b);
    let ps = choose|ps: Seq<int>| tokenization(s, toks, ps);
    let pa: int = if na { 1 } else { 0 };
    let m = pa + a.len();
    let pb = m + 1 + if nb { 1int } else { 0int };
    assert(s.len() == pb + b.len());
    assert forall|k: int| pa <= k < m implies is_digit(#[trigger] s[k]) by {
        assert(s[k] == a[k - pa]);
    }
    assert forall|k: int| pb <= k < s.len() implies is_digit(#[trigger] s[k]) by {
        assert(s[k] == b[k - pb]);
    }
    assert(s[m] == c);
    assert(na ==> s[0] == '-');
    assert(nb ==> s[m + 1] == '-');
    assert(is_digit(s[pa]));
    assert(is_digit(s[pb]));
    lemma_digit_run(s, pa, m);
    lemma_digit_run(s, pb, s.len() as int);
    let ka: int = if na { 1 } else { 0 };
    if na {
        lemma_next_pull(s, toks, ps, 0);
        assert(symbol_at(s, 0) == (Token::Minus, 1int));
    }
    lemma_next_pull(s, toks, ps, ka);
    assert(ps[ka + 1] == m);
    let sa = toks[ka]->Ok_0->Number_0;
    assert(s.subrange(pa, m) =~= a);
    lemma_next_pull(s, toks, ps, ka + 1);
    assert(symbol_of(c) is Some);
    assert(symbol_at(s, m) == (pair_operator(c), m + 1));
    if nb {
        lemma_next_pull(s, toks, ps, ka + 2);
        assert(symbol_at(s, m + 1) == (Token::Minus, m + 2));
    }
    let kb = ka + 2 + if nb { 1int } else { 0int };
    lemma_next_pull(s, toks, ps, kb);
    let sb = toks[kb]->Ok_0->Number_0;
    assert(s.subrange(pb, s.len() as int) =~= b);
    lemma_last_pull(s, toks, ps, kb + 1);
    assert(toks =~= pair_tokens(na, sa, pair_operator(c), nb, sb));
}

/// For any strings of digits `a` and `b` that write numbers in the `i64`
/// range, each with or without a leading `-`, the text `a+b`, `a*b` or
/// `a-b` evaluates to the integer sum, product or difference, whenever
/// that fits in an `i64`. `r` is any outcome that `calculate` may give for
/// that text.
pub proof fn law_integer_text(
    na: bool,
    a: Seq<char>,
    c: char,
    nb: bool,
    b: Seq<char>,
    r: Result<Value, Error>,
)
    requires
        a.len() > 0,
        b.len() > 0,
        all_digits(a),
        all_digits(b),
        digits_value(a) <= i64::MAX,
        digits_value(b) <= i64::MAX,
        c == '+' || c == '*' || c == '-',
        exists|toks: Seq<Result<Token, Error>>|
            lexes(pair_text(na, a, c, nb, b), toks) && calculation(toks, 0, r),
    ensures
        ({
            let (x, y) = (signed(na, digits_value(a)), signed(nb, digits_value(b)));
            let z = if c == '+' {
                x + y
            } else if c == '*' {
                x * y
            } else {
                x - y
            };
            i64::MIN <= z <= i64::MAX ==> r == Ok::<Value, Error>(Value::Integer(z as i64))
        }),
{
    let toks = choose|toks: Seq<Result<Token, Error>>|
        lexes(pair_text(na, a, c, nb, b), toks) && calculation(toks, 0, r);
    lemma_lex_pair(na, a, c, nb, b, toks);
    let (sa, sb) = choose|sa: String, sb: String|
        sa@ == a && sb@ == b && toks == pair_tokens(na, sa, pair_operator(c), nb, sb);
    law_integer_pair(na, sa, pair_operator(c), nb, sb, r);
}

/// Two pulls from the same position yield the same thing: nothing, or
/// tokens or lexical errors of the same text.
pub open spec fn same_pull(r1: Option<Result<Token, Error>>, r2: Option<Result<Token, Error>>) -> bool {
    match (r1, r2) {
        (None, None) => true,
        (Some(a), Some(b)) => same_token(a, b),
        _ => false,
    }
}

proof fn lemma_pull_determined(
    s: Seq<char>,
    i: int,
    r1: Option<Result<Token, Error>>,
    j1: int,
    r2: Option<Result<Token, Error>>,
    j2: int,
)
    requires
        lexed(s, i, r1, j1),
        lexed(s, i, r2, j2),
    ensures
        j1 == j2,
        same_pull(r1, r2),
{
}

proof fn lemma_pulls_agree(
    s: Seq<char>,
    t1: Seq<Result<Token, Error>>,
    ps1: Seq<int>,
    t2: Seq<Result<Token, Error>>,
    ps2: Seq<int>,
    k: int,
)
    requires
        tokenization(s, t1, ps1),
        tokenization(s, t2, ps2),
        0 <= k <= t1.len(),
        k <= t2.len(),
    ensures
        ps1[k] == ps2[k],
        forall|m: int| 0 <= m < k ==> same_pull(Some(#[trigger] t1[m]), Some(t2[m])),
    decreases k,
{
    if k > 0 {
        lemma_pulls_agree(s, t1, ps1, t2, ps2, k - 1);
        lemma_pull_at(s, t1, ps1, k - 1);
        lemma_pull_at(s, t2, ps2, k - 1);
        lemma_pull_determined(s, ps1[k - 1], Some(t1[k - 1]), ps1[k], Some(t2[k - 1]), ps2[k]);
    }
}

/// Lexing keeps no state: two lexings of the same text yield token
/// sequences of the same text.
pub proof fn law_lexing_repeatable(
    s: Seq<char>,
    t1: Seq<Result<Token, Error>>,
    t2: Seq<Result<Token, Error>>,
)
    requires
        lexes(s, t1),
        lexes(s, t2),
    ensures
        same_tokens(t1, t2),
{
    let ps1 = choose|ps: Seq<int>| tokenization(s, t1, ps);
    let ps2 = choose|ps: Seq<int>| tokenization(s, t2, ps);
    let n = if t1.len() < t2.len() {
        t1.len() as int
    } else {
        t2.len() as int
    };
    lemma_pulls_agree(s, t1, ps1, t2, ps2, n);
    if t1.len() < t2.len() {
        lemma_pull_at(s, t2, ps2, n);
    } else if t2.len() < t1.len() {
        lemma_pull_at(s, t1, ps1, n);
    }
}

/// Evaluation keeps no state: evaluating the same text again reports the
/// same outcome. `r1` and `r2` are any two outcomes that `calculate` may
/// give for `s`.
pub proof fn law_repeatable(s: Seq<char>, r1: Result<Value, Error>, r2: Result<Value, Error>)
    requires
        exists|toks: Seq<Result<Token, Error>>| lexes(s, toks) && calculation(toks, 0, r1),
        exists|toks: Seq<Result<Token, Error>>| lexes(s, toks) && calculation(toks, 0, r2),
    ensures
        same_outcome(r1, r2),
{
    let t1 = choose|toks: Seq<Result<Token, Error>>| lexes(s, toks) && calculation(toks, 0, r1);
    let t2 = choose|toks: Seq<Result<Token, Error>>| lexes(s, toks) && calculation(toks, 0, r2);
    law_lexing_repeatable(s, t1, t2);
    lemma_same_calculation(t1, t2, 0, r1, r2);
}

} // verus!
