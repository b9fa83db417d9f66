use crate::ast::{Expression, Literal, Operation};
use crate::error::Error;
use crate::lexer::{is_digit, lexes, token_text, tokenize, Token};
use vstd::prelude::*;
use vstd::string::StrSliceExecFns;
use vstd::string::StringExecFns;

verus! {

pub const ASSOC_LEFT: u8 = 1;

pub const ASSOC_RIGHT: u8 = 0;

/// A prefix operator: `-` negates, `+` asserts (identity).
#[derive(Clone, Copy, Debug, PartialEq, Eq)]
pub enum PrefixOperator {
    Minus,
    Plus,
}

/// An infix operator.
#[derive(Clone, Copy, Debug, PartialEq, Eq)]
pub enum InfixOperator {
    Add,
    Divide,
    Exponentiate,
    Multiply,
    Subtract,
    Modulo,
}

/// A postfix operator: `!` takes the factorial.
#[derive(Clone, Copy, Debug, PartialEq, Eq)]
pub enum PostfixOperator {
    Factorial,
}

pub open spec fn prefix_of(t: Token) -> Option<PrefixOperator> {
    match t {
        Token::Minus => Some(PrefixOperator::Minus),
        Token::Plus => Some(PrefixOperator::Plus),
        _ => None,
    }
}

pub open spec fn infix_of(t: Token) -> Option<InfixOperator> {
    match t {
        Token::Plus => Some(InfixOperator::Add),
        Token::Minus => Some(InfixOperator::Subtract),
        Token::Caret => Some(InfixOperator::Exponentiate),
        Token::Asterisk => Some(InfixOperator::Multiply),
        Token::Slash => Some(InfixOperator::Divide),
        Token::Percent => Some(InfixOperator::Modulo),
        _ => None,
    }
}

pub open spec fn postfix_of(t: Token) -> Option<PostfixOperator> {
    match t {
        Token::Exclamation => Some(PostfixOperator::Factorial),
        _ => None,
    }
}

impl PrefixOperator {
    pub open spec fn spec_prec(self) -> u8 {
        9
    }

    pub open spec fn spec_assoc(self) -> u8 {
        ASSOC_RIGHT
    }

    pub open spec fn spec_build(self, x: Expression) -> Expression {
        match self {
            PrefixOperator::Minus => Expression::Operation(Operation::Negate(Box::new(x))),
            PrefixOperator::Plus => Expression::Operation(Operation::Assert(Box::new(x))),
        }
    }

    fn from_token(t: &Token) -> (r: Option<PrefixOperator>)
        ensures
            r == prefix_of(*t),
    {
        match t {
            Token::Minus => Some(PrefixOperator::Minus),
            Token::Plus => Some(PrefixOperator::Plus),
            _ => None,
        }
    }

    fn prec(&self) -> (r: u8)
        ensures
            r == self.spec_prec(),
    {
        9
    }

    fn assoc(&self) -> (r: u8)
        ensures
            r == self.spec_assoc(),
    {
        ASSOC_RIGHT
    }

    pub fn build(&self, x: Expression) -> (r: Expression)
        ensures
            r == self.spec_build(x),
    {
        let x = Box::new(x);
        match self {
            PrefixOperator::Minus => Expression::Operation(Operation::Negate(x)),
            PrefixOperator::Plus => Expression::Operation(Operation::Assert(x)),
        }
    }
}

impl InfixOperator {
    pub open spec fn spec_prec(self) -> u8 {
        match self {
            InfixOperator::Add | InfixOperator::Subtract => 5,
            InfixOperator::Multiply | InfixOperator::Divide | InfixOperator::Modulo => 6,
            InfixOperator::Exponentiate => 7,
        }
    }

    pub open spec fn spec_assoc(self) -> u8 {
        match self {
            InfixOperator::Exponentiate => ASSOC_RIGHT,
            _ => ASSOC_LEFT,
        }
    }

    pub open spec fn spec_build(self, l: Expression, r: Expression) -> Expression {
        let (l, r) = (Box::new(l), Box::new(r));
        Expression::Operation(
            match self {
                InfixOperator::Add => Operation::Add(l, r),
                InfixOperator::Divide => Operation::Divide(l, r),
                InfixOperator::Exponentiate => Operation::Exponentiate(l, r),
                InfixOperator::Multiply => Operation::Multiply(l, r),
                InfixOperator::Subtract => Operation::Subtract(l, r),
                InfixOperator::Modulo => Operation::Modulo(l, r),
            },
        )
    }

    fn from_token(t: &Token) -> (r: Option<InfixOperator>)
        ensures
            r == infix_of(*t),
    {
        match t {
            Token::Plus => Some(InfixOperator::Add),
            Token::Minus => Some(InfixOperator::Subtract),
            Token::Caret => Some(InfixOperator::Exponentiate),
            Token::Asterisk => Some(InfixOperator::Multiply),
            Token::Slash => Some(InfixOperator::Divide),
            Token::Percent => Some(InfixOperator::Modulo),
            _ => None,
        }
    }

    fn prec(&self) -> (r: u8)
        ensures
            r == self.spec_prec(),
    {
        match self {
            InfixOperator::Add | InfixOperator::Subtract => 5,
            InfixOperator::Multiply | InfixOperator::Divide | InfixOperator::Modulo => 6,
            InfixOperator::Exponentiate => 7,
        }
    }

    fn assoc(&self) -> (r: u8)
        ensures
            r == self.spec_assoc(),
    {
        match self {
            InfixOperator::Exponentiate => ASSOC_RIGHT,
            _ => ASSOC_LEFT,
        }
    }

    pub fn build(&self, l: Expression, r: Expression) -> (e: Expression)
        ensures
            e == self.spec_build(l, r),
    {
        let l = Box::new(l);
        let r = Box::new(r);
        Expression::Operation(
            match self {
                InfixOperator::Add => Operation::Add(l, r),
                InfixOperator::Divide => Operation::Divide(l, r),
                InfixOperator::Exponentiate => Operation::Exponentiate(l, r),
                InfixOperator::Multiply => Operation::Multiply(l, r),
                InfixOperator::Subtract => Operation::Subtract(l, r),
                InfixOperator::Modulo => Operation::Modulo(l, r),
            },
        )
    }
}

impl PostfixOperator {
    pub open spec fn spec_prec(self) -> u8 {
        8
    }

    pub open spec fn spec_build(self, x: Expression) -> Expression {
        Expression::Operation(Operation::Factorial(Box::new(x)))
    }

    fn from_token(t: &Token) -> (r: Option<PostfixOperator>)
        ensures
            r == postfix_of(*t),
    {
        match t {
            Token::Exclamation => Some(PostfixOperator::Factorial),
            _ => None,
        }
    }

    fn prec(&self) -> (r: u8)
        ensures
            r == self.spec_prec(),
    {
        8
    }

    pub fn build(&self, x: Expression) -> (r: Expression)
        ensures
            r == self.spec_build(x),
    {
        let x = Box::new(x);
        match self {
            PostfixOperator::Factorial => Expression::Operation(Operation::Factorial(x)),
        }
    }
}

/// Why a token sequence does not parse.
#[derive(Debug, PartialEq)]
pub enum Syntax {
    EndOfInput,
    /// A lexical error met where a token was needed, passed on unchanged.
    Lexical(Error),
    /// An all-digit literal beyond the `i64` range.
    NumberTooLarge,
    ExpectedAtom(Token),
    /// The token that was expected, and the one found.
    ExpectedToken(Token, Token),
    UnexpectedToken(Token),
}

pub open spec fn digit_of(c: char) -> int {
    (c as u32) as int - 48
}

pub open spec fn all_digits(s: Seq<char>) -> bool {
    forall|i: int| 0 <= i < s.len() ==> is_digit(#[trigger] s[i])
}

/// The number that a string of decimal digits writes.
pub open spec fn digits_value(s: Seq<char>) -> int
    decreases s.len(),
{
    if s.len() == 0 {
        0
    } else {
        digits_value(s.drop_last()) * 10 + digit_of(s.last())
    }
}

/// The literal that a number token's text stands for: an integer when the
/// text is all digits, else a decimal.
pub open spec fn number_literal(n: String) -> Result<Expression, Syntax> {
    if all_digits(n@) {
        if digits_value(n@) <= i64::MAX {
            Ok(Expression::Literal(Literal::Integer(digits_value(n@) as i64)))
        } else {
            Err(Syntax::NumberTooLarge)
        }
    } else {
        Ok(Expression::Literal(Literal::Float(n)))
    }
}

/// `t` is the token `x`: for numbers, one of the same text.
pub open spec fn token_matches(t: Token, x: Token) -> bool {
    match (t, x) {
        (Token::Number(a), Token::Number(b)) => a@ == b@,
        _ => t == x,
    }
}

/// The well-formed token at `pos`, if any.
pub open spec fn token_at(toks: Seq<Result<Token, Error>>, pos: int) -> Option<Token> {
    if 0 <= pos < toks.len() && toks[pos] is Ok {
        Some(toks[pos]->Ok_0)
    } else {
        None
    }
}

pub open spec fn prefix_at(toks: Seq<Result<Token, Error>>, pos: int, min: int) -> Option<
    PrefixOperator,
> {
    match token_at(toks, pos) {
        Some(t) => match prefix_of(t) {
            Some(o) => if o.spec_prec() >= min {
                Some(o)
            } else {
                None
            },
            None => None,
        },
        None => None,
    }
}

pub open spec fn infix_at(toks: Seq<Result<Token, Error>>, pos: int, min: int) -> Option<
    InfixOperator,
> {
    match token_at(toks, pos) {
        Some(t) => match infix_of(t) {
            Some(o) => if o.spec_prec() >= min {
                Some(o)
            } else {
                None
            },
            None => None,
        },
        None => None,
    }
}

pub open spec fn postfix_at(toks: Seq<Result<Token, Error>>, pos: int, min: int) -> Option<
    PostfixOperator,
> {
    match token_at(toks, pos) {
        Some(t) => match postfix_of(t) {
            Some(o) => if o.spec_prec() >= min {
                Some(o)
            } else {
                None
            },
            None => None,
        },
        None => None,
    }
}

/// Precedence climbing from `pos` at minimum precedence `min`: a prefix
/// operator and its operand, or an atom; then the postfix operators, then
/// the infix ones, that bind at least as tightly as `min`. Yields the tree
/// and the position after it.
pub open spec fn parse_expr(toks: Seq<Result<Token, Error>>, pos: int, min: int) -> Result<
    (Expression, int),
    Syntax,
>
    decreases toks.len() - pos, 3int,
{
    if !(0 <= pos <= toks.len()) {
        Err(Syntax::EndOfInput)
    } else {
        let head = match prefix_at(toks, pos, min) {
            Some(o) => match parse_expr(toks, pos + 1, o.spec_prec() + o.spec_assoc()) {
                Ok((e, q)) => Ok((o.spec_build(e), q)),
                Err(f) => Err(f),
            },
            None => parse_atom(toks, pos),
        };
        match head {
            Err(f) => Err(f),
            Ok((lhs, q)) => if pos < q <= toks.len() {
                postfix_loop(toks, q, lhs, min)
            } else {
                Err(Syntax::EndOfInput)
            },
        }
    }
}

/// A number, or a parenthesised expression.
pub open spec fn parse_atom(toks: Seq<Result<Token, Error>>, pos: int) -> Result<
    (Expression, int),
    Syntax,
>
    decreases toks.len() - pos, 2int,
{
    if !(0 <= pos < toks.len()) {
        Err(Syntax::EndOfInput)
    } else {
        match toks[pos] {
            Err(e) => Err(Syntax::Lexical(e)),
            Ok(Token::Number(n)) => match number_literal(n) {
                Ok(e) => Ok((e, pos + 1)),
                Err(f) => Err(f),
            },
            Ok(Token::OpenParen) => match parse_expr(toks, pos + 1, 0) {
                Err(f) => Err(f),
                Ok((e, q)) => if !(0 <= q < toks.len()) {
                    Err(Syntax::EndOfInput)
                } else {
                    match toks[q] {
                        Err(x) => Err(Syntax::Lexical(x)),
                        Ok(Token::CloseParen) => Ok((e, q + 1)),
                        Ok(t) => Err(Syntax::ExpectedToken(Token::CloseParen, t)),
                    }
                },
            },
            Ok(t) => Err(Syntax::ExpectedAtom(t)),
        }
    }
}

pub open spec fn postfix_loop(
    toks: Seq<Result<Token, Error>>,
    pos: int,
    lhs: Expression,
    min: int,
) -> Result<(Expression, int), Syntax>
    decreases toks.len() - pos, 1int,
{
    match postfix_at(toks, pos, min) {
        Some(o) => postfix_loop(toks, pos + 1, o.spec_build(lhs), min),
        None => infix_loop(toks, pos, lhs, min),
    }
}

pub open spec fn infix_loop(
    toks: Seq<Result<Token, Error>>,
    pos: int,
    lhs: Expression,
    min: int,
) -> Result<(Expression, int), Syntax>
    decreases toks.len() - pos, 0int,
{
    match infix_at(toks, pos, min) {
        Some(o) => match parse_expr(toks, pos + 1, o.spec_prec() + o.spec_assoc()) {
            Err(f) => Err(f),
            Ok((rhs, q)) => if pos < q <= toks.len() {
                infix_loop(toks, q, o.spec_build(lhs, rhs), min)
            } else {
                Err(Syntax::EndOfInput)
            },
        },
        None => Ok((lhs, pos)),
    }
}

/// The tokens from `pos` on as one expression: anything left over after it
/// is an error.
pub open spec fn parse_tokens(toks: Seq<Result<Token, Error>>, pos: int) -> Result<Expression, Syntax> {
    match parse_expr(toks, pos, 0) {
        Err(f) => Err(f),
        Ok((e, q)) => if 0 <= q < toks.len() {
            match toks[q] {
                Err(x) => Err(Syntax::Lexical(x)),
                Ok(t) => Err(Syntax::UnexpectedToken(t)),
            }
        } else {
            Ok(e)
        },
    }
}

/// An exec outcome agrees with the spec outcome `s`, the parser having
/// moved to `pos`.
pub open spec fn agrees(r: Result<Expression, Syntax>, s: Result<(Expression, int), Syntax>, pos: int) -> bool {
    match s {
        Ok((e, q)) => r == Ok::<Expression, Syntax>(e) && pos == q,
        Err(f) => r == Err::<Expression, Syntax>(f),
    }
}

/// A longer prefix of a digit string writes a number at least as large.
pub proof fn lemma_digits_value_grows(s: Seq<char>, j: int, m: int)
    requires
        all_digits(s),
        0 <= j <= m <= s.len(),
    ensures
        0 <= digits_value(s.take(j)) <= digits_value(s.take(m)),
    decreases m,
{
    if j < m {
        lemma_digits_value_grows(s, j, m - 1);
        assert(s.take(m).drop_last() =~= s.take(m - 1));
        assert(is_digit(s[m - 1]));
    } else if m > 0 {
        lemma_digits_value_grows(s, 0, m - 1);
        assert(s.take(m).drop_last() =~= s.take(m - 1));
        assert(is_digit(s[m - 1]));
    } else {
        assert(s.take(0).len() == 0);
    }
}

/// The literal that a number token's text stands for.
fn number_literal_of(n: String) -> (r: Result<Expression, Syntax>)
    ensures
        r == number_literal(n),
{
    let len = n.as_str().unicode_len();
    let mut i: usize = 0;
    while i < len
        invariant
            len == n@.len(),
            i <= len,
            forall|k: int| 0 <= k < i ==> is_digit(#[trigger] n@[k]),
        decreases len - i,
    {
        let c = n.as_str().get_char(i);
        if !('0' <= c && c <= '9') {
            return Ok(Expression::Literal(Literal::Float(n)));
        }
        i = i + 1;
    }
    let mut acc: i64 = 0;
    let mut i: usize = 0;
    while i < len
        invariant
            len == n@.len(),
            i <= len,
            all_digits(n@),
            acc == digits_value(n@.take(i as int)),
        decreases len - i,
    {
        let c = n.as_str().get_char(i);
        assert(is_digit(n@[i as int]));
        let d = (c as u32 - 48) as i64;
        proof {
            assert(n@.take(i + 1).drop_last() =~= n@.take(i as int));
            lemma_digits_value_grows(n@, i + 1, len as int);
            assert(n@.take(len as int) =~= n@);
        }
        match acc.checked_mul(10) {
            None => return Err(Syntax::NumberTooLarge),
            Some(t) => match t.checked_add(d) {
                None => return Err(Syntax::NumberTooLarge),
                Some(v) => {
                    acc = v;
                },
            },
        }
        i = i + 1;
    }
    assert(n@.take(len as int) =~= n@);
    Ok(Expression::Literal(Literal::Integer(acc)))
}

/// Builds an expression tree from the tokens of an input string.
pub struct Parser {
    pub tokens: Vec<Result<Token, Error>>,
    pub pos: usize,
}

impl Parser {
    pub open spec fn wf(&self) -> bool {
        self.pos <= self.tokens@.len()
    }

    pub fn new(query: &str) -> (r: Parser)
        ensures
            lexes(query@, r.tokens@),
            r.pos == 0,
            r.wf(),
    {
        Parser { tokens: tokenize(query), pos: 0 }
    }

    /// Pulls the next token; a lexical error in its place is passed on.
    fn next(&mut self) -> (r: Result<Token, Syntax>)
        requires
            old(self).wf(),
        ensures
            final(self).wf(),
            final(self).tokens == old(self).tokens,
            old(self).pos < old(self).tokens@.len() ==> final(self).pos == old(self).pos + 1
                && r == match old(self).tokens@[old(self).pos as int] {
                Ok(t) => Ok::<Token, Syntax>(t),
                Err(e) => Err(Syntax::Lexical(e)),
            },
            old(self).pos >= old(self).tokens@.len() ==> final(self).pos == old(self).pos && r
                == Err::<Token, Syntax>(Syntax::EndOfInput),
    {
        if self.pos < self.tokens.len() {
            let r = match &self.tokens[self.pos] {
                Ok(t) => Ok(t.duplicate()),
                Err(e) => Err(Syntax::Lexical(e.duplicate())),
            };
            self.pos = self.pos + 1;
            r
        } else {
            Err(Syntax::EndOfInput)
        }
    }

    /// The next well-formed token, without consuming it.
    fn peek(&self) -> (r: Option<Token>)
        requires
            self.wf(),
        ensures
            r == token_at(self.tokens@, self.pos as int),
    {
        if self.pos < self.tokens.len() {
            match &self.tokens[self.pos] {
                Ok(t) => Some(t.duplicate()),
                Err(_) => None,
            }
        } else {
            None
        }
    }

    /// Pulls the next token, which must be `expect` (a number of the same
    /// text, for a number); with no `expect`, the input must be at its end.
    fn next_expect(&mut self, expect: Option<Token>) -> (r: Result<Option<Token>, Syntax>)
        requires
            old(self).wf(),
        ensures
            final(self).wf(),
            final(self).tokens == old(self).tokens,
            ({
                let toks = old(self).tokens@;
                let p = old(self).pos as int;
                match expect {
                    Some(x) => if p < toks.len() {
                        final(self).pos == p + 1 && r == match toks[p] {
                            Err(e) => Err(Syntax::Lexical(e)),
                            Ok(t) => if token_matches(t, x) {
                                Ok(Some(t))
                            } else {
                                Err(Syntax::ExpectedToken(x, t))
                            },
                        }
                    } else {
                        r == Err::<Option<Token>, Syntax>(Syntax::EndOfInput)
                    },
                    None => final(self).pos == p && r == if p < toks.len() {
                        match toks[p] {
                            Err(e) => Err(Syntax::Lexical(e)),
                            Ok(t) => Err(Syntax::UnexpectedToken(t)),
                        }
                    } else {
                        Ok(None::<Token>)
                    },
                }
            }),
    {
        match expect {
            Some(x) => {
                let token = match self.next() {
                    Err(f) => return Err(f),
                    Ok(t) => t,
                };
                if Self::same_token(&token, &x) {
                    Ok(Some(token))
                } else {
                    Err(Syntax::ExpectedToken(x, token))
                }
            },
            None => {
                if self.pos < self.tokens.len() {
                    match &self.tokens[self.pos] {
                        Err(e) => Err(Syntax::Lexical(e.duplicate())),
                        Ok(t) => Err(Syntax::UnexpectedToken(t.duplicate())),
                    }
                } else {
                    Ok(None)
                }
            },
        }
    }

    fn same_token(a: &Token, b: &Token) -> (r: bool)
        ensures
            r == token_matches(*a, *b),
    {
        match (a, b) {
            (Token::Number(x), Token::Number(y)) => *x == *y,
            (Token::Asterisk, Token::Asterisk) => true,
            (Token::Caret, Token::Caret) => true,
            (Token::CloseParen, Token::CloseParen) => true,
            (Token::Equal, Token::Equal) => true,
            (Token::Exclamation, Token::Exclamation) => true,
            (Token::GreaterThan, Token::GreaterThan) => true,
            (Token::GreaterThanOrEqual, Token::GreaterThanOrEqual) => true,
            (Token::LessOrGreaterThan, Token::LessOrGreaterThan) => true,
            (Token::LessThan, Token::LessThan) => true,
            (Token::LessThanOrEqual, Token::LessThanOrEqual) => true,
            (Token::Minus, Token::Minus) => true,
            (Token::OpenParen, Token::OpenParen) => true,
            (Token::Percent, Token::Percent) => true,
            (Token::Plus, Token::Plus) => true,
            (Token::Slash, Token::Slash) => true,
            _ => false,
        }
    }

    /// Consumes the next token if it is a prefix operator binding at least
    /// as tightly as `min_prec`.
    fn next_if_prefix(&mut self, min_prec: u8) -> (r: Option<PrefixOperator>)
        requires
            old(self).wf(),
        ensures
            final(self).wf(),
            final(self).tokens == old(self).tokens,
            r == prefix_at(old(self).tokens@, old(self).pos as int, min_prec as int),
            final(self).pos == old(self).pos + if r is Some { 1int } else { 0int },
    {
        match self.peek() {
            Some(t) => match PrefixOperator::from_token(&t) {
                Some(o) => if o.prec() >= min_prec {
                    let n = self.tokens.len();
                    assert(self.pos < n);
                    self.pos = self.pos + 1;
                    Some(o)
                } else {
                    None
                },
                None => None,
            },
            None => None,
        }
    }

    /// Consumes the next token if it is an infix operator binding at least
    /// as tightly as `min_prec`.
    fn next_if_infix(&mut self, min_prec: u8) -> (r: Option<InfixOperator>)
        requires
            old(self).wf(),
        ensures
            final(self).wf(),
            final(self).tokens == old(self).tokens,
            r == infix_at(old(self).tokens@, old(self).pos as int, min_prec as int),
            final(self).pos == old(self).pos + if r is Some { 1int } else { 0int },
    {
        match self.peek() {
            Some(t) => match InfixOperator::from_token(&t) {
                Some(o) => if o.prec() >= min_prec {
                    let n = self.tokens.len();
                    assert(self.pos < n);
                    self.pos = self.pos + 1;
                    Some(o)
                } else {
                    None
                },
                None => None,
            },
            None => None,
        }
    }

    /// Consumes the next token if it is a postfix operator binding at least
    /// as tightly as `min_prec`.
    fn next_if_postfix(&mut self, min_prec: u8) -> (r: Option<PostfixOperator>)
        requires
            old(self).wf(),
        ensures
            final(self).wf(),
            final(self).tokens == old(self).tokens,
            r == postfix_at(old(self).tokens@, old(self).pos as int, min_prec as int),
            final(self).pos == old(self).pos + if r is Some { 1int } else { 0int },
    {
        match self.peek() {
            Some(t) => match PostfixOperator::from_token(&t) {
                Some(o) => if o.prec() >= min_prec {
                    let n = self.tokens.len();
                    assert(self.pos < n);
                    self.pos = self.pos + 1;
                    Some(o)
                } else {
                    None
                },
                None => None,
            },
            None => None,
        }
    }

    /// Parses one expression at minimum precedence `min_prec`.
    fn parse_expression(&mut self, min_prec: u8) -> (r: Result<Expression, Syntax>)
        requires
            old(self).wf(),
        ensures
            final(self).wf(),
            final(self).tokens == old(self).tokens,
            agrees(
                r,
                parse_expr(old(self).tokens@, old(self).pos as int, min_prec as int),
                final(self).pos as int,
            ),
            r is Ok ==> old(self).pos < final(self).pos,
        decreases old(self).tokens@.len() - old(self).pos, 3int,
    {
        let ghost toks = self.tokens@;
        let ghost first = self.pos as int;
        let ghost min = min_prec as int;
        let mut lhs = match self.next_if_prefix(min_prec) {
            Some(prefix) => {
                let operand = match self.parse_expression(prefix.prec() + prefix.assoc()) {
                    Err(f) => return Err(f),
                    Ok(e) => e,
                };
                prefix.build(operand)
            },
            None => match self.parse_expression_atom() {
                Err(f) => return Err(f),
                Ok(e) => e,
            },
        };
        loop
            invariant
                self.wf(),
                self.tokens == old(self).tokens,
                toks == old(self).tokens@,
                first == old(self).pos,
                0 <= first < self.pos,
                min == min_prec as int,
                parse_expr(toks, first, min) == postfix_loop(toks, self.pos as int, lhs, min),
            ensures
                self.wf(),
                self.tokens == old(self).tokens,
                first == old(self).pos,
                0 <= first < self.pos,
                parse_expr(toks, first, min) == infix_loop(toks, self.pos as int, lhs, min),
            decreases toks.len() - self.pos,
        {
            match self.next_if_postfix(min_prec) {
                Some(postfix) => {
                    lhs = postfix.build(lhs);
                },
                None => break,
            }
        }
        loop
            invariant
                self.wf(),
                self.tokens == old(self).tokens,
                toks == old(self).tokens@,
                first == old(self).pos,
                0 <= first < self.pos,
                min == min_prec as int,
                parse_expr(toks, first, min) == infix_loop(toks, self.pos as int, lhs, min),
            ensures
                self.wf(),
                self.tokens == old(self).tokens,
                first == old(self).pos,
                0 <= first < self.pos,
                parse_expr(toks, first, min) == Ok::<(Expression, int), Syntax>((lhs, self.pos as int)),
            decreases toks.len() - self.pos,
        {
            match self.next_if_infix(min_prec) {
                Some(infix) => {
                    let next_prec = infix.prec() + infix.assoc();
                    let rhs = match self.parse_expression(next_prec) {
                        Err(f) => return Err(f),
                        Ok(e) => e,
                    };
                    lhs = infix.build(lhs, rhs);
                },
                None => break,
            }
        }
        Ok(lhs)
    }

    /// Parses a number, or an expression in parentheses.
    fn parse_expression_atom(&mut self) -> (r: Result<Expression, Syntax>)
        requires
            old(self).wf(),
        ensures
            final(self).wf(),
            final(self).tokens == old(self).tokens,
            agrees(r, parse_atom(old(self).tokens@, old(self).pos as int), final(self).pos as int),
            r is Ok ==> old(self).pos < final(self).pos,
        decreases old(self).tokens@.len() - old(self).pos, 2int,
    {
        let ghost toks = self.tokens@;
        let ghost first = self.pos as int;
        match self.next() {
            Err(f) => Err(f),
            Ok(Token::Number(n)) => number_literal_of(n),
            Ok(Token::OpenParen) => {
                let expr = match self.parse_expression(0) {
                    Err(f) => return Err(f),
                    Ok(e) => e,
                };
                match self.next_expect(Some(Token::CloseParen)) {
                    Err(f) => Err(f),
                    Ok(_) => Ok(expr),
                }
            },
            Ok(t) => Err(Syntax::ExpectedAtom(t)),
        }
    }

    /// Parses the rest of the input as one expression.
    pub fn parse_syntax(&mut self) -> (r: Result<Expression, Syntax>)
        requires
            old(self).wf(),
        ensures
            final(self).wf(),
            final(self).tokens == old(self).tokens,
            r is Ok ==> final(self).pos == final(self).tokens@.len(),
            r == parse_tokens(old(self).tokens@, old(self).pos as int),
    {
        let expr = match self.parse_expression(0) {
            Err(f) => return Err(f),
            Ok(e) => e,
        };
        match self.next_expect(None) {
            Err(f) => Err(f),
            Ok(_) => Ok(expr),
        }
    }

    /// Parses the rest of the input as one expression, or says why it is
    /// not one.
    pub fn parse(&mut self) -> (r: Result<Expression, Error>)
        requires
            old(self).wf(),
        ensures
            final(self).wf(),
            final(self).tokens == old(self).tokens,
            r is Ok ==> final(self).pos == final(self).tokens@.len(),
            match parse_tokens(old(self).tokens@, old(self).pos as int) {
                Ok(e) => r == Ok::<Expression, Error>(e),
                Err(f) => r matches Err(x) && syntax_error(f, x),
            },
    {
        match self.parse_syntax() {
            Ok(e) => Ok(e),
            Err(f) => Err(f.into_error()),
        }
    }
}

/// `e` is the error that reports `f`.
pub open spec fn syntax_error(f: Syntax, e: Error) -> bool {
    match f {
        Syntax::Lexical(x) => e == x,
        _ => e matches Error::Parse(m) && m@ == syntax_message(f),
    }
}

pub open spec fn syntax_message(f: Syntax) -> Seq<char> {
    match f {
        Syntax::EndOfInput => "Unexpected end of input"@,
        Syntax::NumberTooLarge => "number too large to fit in target type"@,
        Syntax::ExpectedAtom(t) => "Expected expression atom, found "@ + token_text(t),
        Syntax::ExpectedToken(x, t) => "Expected token "@ + token_text(x) + ", found "@
            + token_text(t),
        Syntax::UnexpectedToken(t) => "Unexpected token "@ + token_text(t),
        Syntax::Lexical(x) => Seq::empty(),
    }
}

impl Syntax {
    /// The error that reports this failure.
    pub fn into_error(self) -> (r: Error)
        ensures
            syntax_error(self, r),
    {
        match self {
            Syntax::Lexical(x) => x,
            Syntax::EndOfInput => Error::Parse(String::from_str("Unexpected end of input")),
            Syntax::NumberTooLarge => Error::Parse(
                String::from_str("number too large to fit in target type"),
            ),
            Syntax::ExpectedAtom(t) => Error::Parse(
                String::from_str("Expected expression atom, found ").concat(t.text().as_str()),
            ),
            Syntax::ExpectedToken(x, t) => Error::Parse(
                String::from_str("Expected token ").concat(x.text().as_str()).concat(
                    ", found ",
                ).concat(t.text().as_str()),
            ),
            Syntax::UnexpectedToken(t) => Error::Parse(
                String::from_str("Unexpected token ").concat(t.text().as_str()),
            ),
        }
    }
}

} // verus!
