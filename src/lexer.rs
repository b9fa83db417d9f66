use crate::error::Error;
use vstd::prelude::*;
use vstd::string::StrSliceExecFns;
use vstd::string::StringExecFns;

verus! {

/// A lexical unit of the input.
#[derive(Clone, Debug, PartialEq)]
pub enum Token {
    Number(String),
    Asterisk,
    Caret,
    CloseParen,
    Equal,
    Exclamation,
    GreaterThan,
    GreaterThanOrEqual,
    LessOrGreaterThan,
    LessThan,
    LessThanOrEqual,
    Minus,
    OpenParen,
    Percent,
    Plus,
    Slash,
}

/// The text of a token, as it stands in the input.
pub open spec fn token_text(t: Token) -> Seq<char> {
    match t {
        Token::Number(n) => n@,
        Token::Asterisk => "*"@,
        Token::Caret => "^"@,
        Token::CloseParen => ")"@,
        Token::Equal => "="@,
        Token::Exclamation => "!"@,
        Token::GreaterThan => ">"@,
        Token::GreaterThanOrEqual => ">="@,
        Token::LessOrGreaterThan => "<>"@,
        Token::LessThan => "<"@,
        Token::LessThanOrEqual => "<="@,
        Token::Minus => "-"@,
        Token::OpenParen => "("@,
        Token::Percent => "%"@,
        Token::Plus => "+"@,
        Token::Slash => "/"@,
    }
}

impl Token {
    /// The text of the token.
    pub fn text(&self) -> (r: String)
        ensures
            r@ == token_text(*self),
    {
        match self {
            Token::Number(n) => n.clone(),
            Token::Asterisk => String::from_str("*"),
            Token::Caret => String::from_str("^"),
            Token::CloseParen => String::from_str(")"),
            Token::Equal => String::from_str("="),
            Token::Exclamation => String::from_str("!"),
            Token::GreaterThan => String::from_str(">"),
            Token::GreaterThanOrEqual => String::from_str(">="),
            Token::LessOrGreaterThan => String::from_str("<>"),
            Token::LessThan => String::from_str("<"),
            Token::LessThanOrEqual => String::from_str("<="),
            Token::Minus => String::from_str("-"),
            Token::OpenParen => String::from_str("("),
            Token::Percent => String::from_str("%"),
            Token::Plus => String::from_str("+"),
            Token::Slash => String::from_str("/"),
        }
    }

    /// A copy of the token.
    pub fn duplicate(&self) -> (r: Token)
        ensures
            r == *self,
    {
        match self {
            Token::Number(n) => Token::Number(n.clone()),
            Token::Asterisk => Token::Asterisk,
            Token::Caret => Token::Caret,
            Token::CloseParen => Token::CloseParen,
            Token::Equal => Token::Equal,
            Token::Exclamation => Token::Exclamation,
            Token::GreaterThan => Token::GreaterThan,
            Token::GreaterThanOrEqual => Token::GreaterThanOrEqual,
            Token::LessOrGreaterThan => Token::LessOrGreaterThan,
            Token::LessThan => Token::LessThan,
            Token::LessThanOrEqual => Token::LessThanOrEqual,
            Token::Minus => Token::Minus,
            Token::OpenParen => Token::OpenParen,
            Token::Percent => Token::Percent,
            Token::Plus => Token::Plus,
            Token::Slash => Token::Slash,
        }
    }
}

/// Unicode `White_Space` characters.
pub open spec fn is_white_space(c: char) -> bool {
    ('\u{9}' <= c && c <= '\u{d}') || c == ' ' || c == '\u{85}' || c == '\u{a0}'
        || c == '\u{1680}' || ('\u{2000}' <= c && c <= '\u{200a}') || c == '\u{2028}'
        || c == '\u{2029}' || c == '\u{202f}' || c == '\u{205f}' || c == '\u{3000}'
}

pub open spec fn is_digit(c: char) -> bool {
    '0' <= c && c <= '9'
}

/// The first index at or after `i` whose character is not white space.
pub open spec fn skip_space(s: Seq<char>, i: int) -> int
    decreases s.len() - i,
{
    if 0 <= i < s.len() && is_white_space(s[i]) {
        skip_space(s, i + 1)
    } else {
        i
    }
}

/// The first index at or after `i` whose character is not an ASCII digit.
pub open spec fn skip_digits(s: Seq<char>, i: int) -> int
    decreases s.len() - i,
{
    if 0 <= i < s.len() && is_digit(s[i]) {
        skip_digits(s, i + 1)
    } else {
        i
    }
}

proof fn lemma_skip_digits_bounds(s: Seq<char>, i: int)
    requires
        0 <= i <= s.len(),
    ensures
        i <= skip_digits(s, i) <= s.len(),
    decreases s.len() - i,
{
    if i < s.len() && is_digit(s[i]) {
        lemma_skip_digits_bounds(s, i + 1);
    }
}

/// The end of the number that starts at `i`: digits, then an optional `.`
/// followed by digits.
pub open spec fn number_end(s: Seq<char>, i: int) -> int {
    let j = skip_digits(s, i);
    if 0 <= j < s.len() && s[j] == '.' {
        skip_digits(s, j + 1)
    } else {
        j
    }
}

/// The one-character symbol that `c` stands for, if any.
pub open spec fn symbol_of(c: char) -> Option<Token> {
    if c == '=' {
        Some(Token::Equal)
    } else if c == '>' {
        Some(Token::GreaterThan)
    } else if c == '<' {
        Some(Token::LessThan)
    } else if c == '+' {
        Some(Token::Plus)
    } else if c == '-' {
        Some(Token::Minus)
    } else if c == '*' {
        Some(Token::Asterisk)
    } else if c == '/' {
        Some(Token::Slash)
    } else if c == '^' {
        Some(Token::Caret)
    } else if c == '%' {
        Some(Token::Percent)
    } else if c == '(' {
        Some(Token::OpenParen)
    } else if c == ')' {
        Some(Token::CloseParen)
    } else if c == '!' {
        Some(Token::Exclamation)
    } else {
        None
    }
}

/// The symbol token read at `i` (a known one-character symbol), with the
/// index after it: `<` and `>` take a following `>` or `=` greedily.
pub open spec fn symbol_at(s: Seq<char>, i: int) -> (Token, int)
    recommends
        0 <= i < s.len(),
        symbol_of(s[i]) is Some,
{
    let t = symbol_of(s[i]).unwrap();
    let next_is = |c: char| i + 1 < s.len() && s[i + 1] == c;
    if t is LessThan && next_is('>') {
        (Token::LessOrGreaterThan, i + 2)
    } else if t is LessThan && next_is('=') {
        (Token::LessThanOrEqual, i + 2)
    } else if t is GreaterThan && next_is('=') {
        (Token::GreaterThanOrEqual, i + 2)
    } else {
        (t, i + 1)
    }
}

pub open spec fn unexpected_message(c: char) -> Seq<char> {
    "Unexpected character "@ + seq![c]
}

/// What one pull of the lexer yields from position `i` of `s`, and where it
/// leaves the lexer: white space is skipped, then a number, a symbol, an
/// unexpected character (consumed, so lexing may go on), or the end.
pub open spec fn lexed(s: Seq<char>, i: int, r: Option<Result<Token, Error>>, j: int) -> bool {
    let k = skip_space(s, i);
    if k >= s.len() {
        r is None && j == k
    } else if is_digit(s[k]) {
        j == number_end(s, k) && (r matches Some(Ok(Token::Number(n))) && n@ == s.subrange(k, j))
    } else if symbol_of(s[k]) is Some {
        r == Some(Ok::<Token, Error>(symbol_at(s, k).0)) && j == symbol_at(s, k).1
    } else {
        j == k + 1 && (r matches Some(Err(Error::Parse(m))) && m@ == unexpected_message(s[k]))
    }
}

/// Relies on char::is_whitespace: true exactly of the Unicode `White_Space`
/// characters.
#[verifier::external_body]
fn char_is_whitespace(c: char) -> (r: bool)
    ensures
        r == is_white_space(c),
{
    c.is_whitespace()
}

/// Relies on char's to_string: the string of that one character.
#[verifier::external_body]
fn char_to_string(c: char) -> (r: String)
    ensures
        r@ == seq![c],
{
    c.to_string()
}

/// Scans the characters of an input string into tokens, one pull at a time.
pub struct Lexer {
    pub chars: Vec<char>,
    pub pos: usize,
}

impl Lexer {
    pub open spec fn wf(&self) -> bool {
        self.pos <= self.chars@.len()
    }

    pub fn new(input: &str) -> (r: Lexer)
        ensures
            r.chars@ == input@,
            r.pos == 0,
            r.wf(),
    {
        let n = input.unicode_len();
        let mut chars: Vec<char> = Vec::new();
        let mut i: usize = 0;
        while i < n
            invariant
                n == input@.len(),
                i <= n,
                chars@ == input@.subrange(0, i as int),
            decreases n - i,
        {
            chars.push(input.get_char(i));
            i = i + 1;
        }
        assert(chars@ =~= input@);
        Lexer { chars, pos: 0 }
    }

    fn peek_char(&self) -> (r: Option<char>)
        requires
            self.wf(),
        ensures
            r == (if self.pos < self.chars@.len() {
                Some(self.chars@[self.pos as int])
            } else {
                None::<char>
            }),
    {
        if self.pos < self.chars.len() {
            Some(self.chars[self.pos])
        } else {
            None
        }
    }

    /// Consumes the next character if it is `c`.
    fn next_if(&mut self, c: char) -> (r: bool)
        requires
            old(self).wf(),
        ensures
            final(self).wf(),
            final(self).chars == old(self).chars,
            r == (old(self).pos < old(self).chars@.len() && old(self).chars@[old(self).pos as int] == c),
            final(self).pos == old(self).pos + if r { 1int } else { 0int },
    {
        if self.pos < self.chars.len() && self.chars[self.pos] == c {
            self.pos = self.pos + 1;
            true
        } else {
            false
        }
    }

    /// Consumes a run of ASCII digits, returning them.
    fn next_while_digit(&mut self) -> (r: String)
        requires
            old(self).wf(),
        ensures
            final(self).wf(),
            final(self).chars == old(self).chars,
            final(self).pos == skip_digits(old(self).chars@, old(self).pos as int),
            r@ == old(self).chars@.subrange(old(self).pos as int, final(self).pos as int),
    {
        let mut value = String::new();
        let ghost start = self.pos as int;
        while self.pos < self.chars.len() && '0' <= self.chars[self.pos] && self.chars[self.pos] <= '9'
            invariant
                self.wf(),
                self.chars == old(self).chars,
                0 <= start <= self.pos,
                skip_digits(self.chars@, start) == skip_digits(self.chars@, self.pos as int),
                value@ == self.chars@.subrange(start, self.pos as int),
            decreases self.chars@.len() - self.pos,
        {
            let c = self.chars[self.pos];
            let cs = char_to_string(c);
            value.append(cs.as_str());
            let ghost p = self.pos as int;
            assert(self.chars@.subrange(start, p + 1) =~= self.chars@.subrange(start, p).push(c));
            self.pos = self.pos + 1;
        }
        value
    }

    fn consume_space(&mut self)
        requires
            old(self).wf(),
        ensures
            final(self).wf(),
            final(self).chars == old(self).chars,
            final(self).pos == skip_space(old(self).chars@, old(self).pos as int),
    {
        let ghost start = self.pos as int;
        while self.pos < self.chars.len() && char_is_whitespace(self.chars[self.pos])
            invariant
                self.wf(),
                self.chars == old(self).chars,
                start <= self.pos,
                skip_space(self.chars@, start) == skip_space(self.chars@, self.pos as int),
            decreases self.chars@.len() - self.pos,
        {
            self.pos = self.pos + 1;
        }
    }

    fn scan_number(&mut self) -> (r: Token)
        requires
            old(self).wf(),
        ensures
            final(self).wf(),
            final(self).chars == old(self).chars,
            final(self).pos == number_end(old(self).chars@, old(self).pos as int),
            r matches Token::Number(n) && n@ == old(self).chars@.subrange(
                old(self).pos as int,
                final(self).pos as int,
            ),
    {
        let ghost start = self.pos as int;
        let mut num = self.next_while_digit();
        proof {
            lemma_skip_digits_bounds(self.chars@, start);
        }
        if self.next_if('.') {
            let ghost mid = self.pos as int - 1;
            proof {
                reveal_strlit(".");
                assert(self.chars@.subrange(start, mid + 1) =~= num@ + "."@);
            }
            num.append(".");
            assert(num@ =~= self.chars@.subrange(start, mid + 1));
            let dec = self.next_while_digit();
            num.append(dec.as_str());
            proof {
                lemma_skip_digits_bounds(self.chars@, mid + 1);
            }
            assert(num@ =~= self.chars@.subrange(start, self.pos as int));
        }
        Token::Number(num)
    }

    fn symbol_token(c: char) -> (r: Option<Token>)
        ensures
            r == symbol_of(c),
    {
        match c {
            '=' => Some(Token::Equal),
            '>' => Some(Token::GreaterThan),
            '<' => Some(Token::LessThan),
            '+' => Some(Token::Plus),
            '-' => Some(Token::Minus),
            '*' => Some(Token::Asterisk),
            '/' => Some(Token::Slash),
            '^' => Some(Token::Caret),
            '%' => Some(Token::Percent),
            '(' => Some(Token::OpenParen),
            ')' => Some(Token::CloseParen),
            '!' => Some(Token::Exclamation),
            _ => None,
        }
    }

    /// Reads the symbol at the current position: a two-character symbol
    /// where `<` or `>` is followed by `>` or `=`, else a one-character one.
    /// `None`, with nothing consumed, where the character (or the end of the
    /// input) starts no symbol.
    fn scan_symbol(&mut self) -> (r: Option<Token>)
        requires
            old(self).wf(),
        ensures
            final(self).wf(),
            final(self).chars == old(self).chars,
            ({
                let s = old(self).chars@;
                let i = old(self).pos as int;
                if i < s.len() && symbol_of(s[i]) is Some {
                    r == Some(symbol_at(s, i).0) && final(self).pos == symbol_at(s, i).1
                } else {
                    r is None && final(self).pos == i
                }
            }),
    {
        let token = match self.peek_char() {
            None => return None,
            Some(c) => match Self::symbol_token(c) {
                None => return None,
                Some(t) => t,
            },
        };
        let n = self.chars.len();
        assert(self.pos < n);
        self.pos = self.pos + 1;
        Some(
            match token {
                Token::LessThan => {
                    if self.next_if('>') {
                        Token::LessOrGreaterThan
                    } else if self.next_if('=') {
                        Token::LessThanOrEqual
                    } else {
                        token
                    }
                },
                Token::GreaterThan => {
                    if self.next_if('=') {
                        Token::GreaterThanOrEqual
                    } else {
                        token
                    }
                },
                _ => token,
            },
        )
    }

    /// Skips white space, then reads a number or a known symbol. `None` at
    /// the end of the input, or before a character that starts no token,
    /// which is left unread.
    fn scan(&mut self) -> (r: Option<Token>)
        requires
            old(self).wf(),
        ensures
            final(self).wf(),
            final(self).chars == old(self).chars,
            ({
                let s = old(self).chars@;
                let k = skip_space(s, old(self).pos as int);
                let j = final(self).pos as int;
                if k >= s.len() {
                    r is None && j == k
                } else if is_digit(s[k]) {
                    j == number_end(s, k) && (r matches Some(Token::Number(n)) && n@ == s.subrange(
                        k,
                        j,
                    ))
                } else if symbol_of(s[k]) is Some {
                    r == Some(symbol_at(s, k).0) && j == symbol_at(s, k).1
                } else {
                    r is None && j == k && k < s.len()
                }
            }),
    {
        self.consume_space();
        match self.peek_char() {
            None => None,
            Some(c) => {
                if '0' <= c && c <= '9' {
                    Some(self.scan_number())
                } else {
                    self.scan_symbol()
                }
            },
        }
    }

    /// Pulls the next token, or a lexical error for a character that starts
    /// no token, or `None` at the end of the input.
    pub fn next(&mut self) -> (r: Option<Result<Token, Error>>)
        requires
            old(self).wf(),
        ensures
            final(self).wf(),
            final(self).chars == old(self).chars,
            lexed(old(self).chars@, old(self).pos as int, r, final(self).pos as int),
    {
        match self.scan() {
            Some(t) => Some(Ok(t)),
            None => match self.peek_char() {
                None => None,
                Some(c) => {
                    let n = self.chars.len();
                    assert(self.pos < n);
                    self.pos = self.pos + 1;
                    let msg = String::from_str("Unexpected character ").concat(
                        char_to_string(c).as_str(),
                    );
                    Some(Err(Error::Parse(msg)))
                },
            },
        }
    }
}

/// `toks` is what successive pulls yield from the start of `s`, `ps` the
/// positions between pulls, and the pull after the last yields nothing.
pub open spec fn tokenization(s: Seq<char>, toks: Seq<Result<Token, Error>>, ps: Seq<int>) -> bool {
    &&& ps.len() == toks.len() + 1
    &&& ps[0] == 0
    &&& forall|k: int|
        0 <= k < toks.len() ==> #[trigger] lexed(s, ps[k], Some(toks[k]), ps[k + 1])
    &&& skip_space(s, ps[toks.len() as int]) >= s.len()
}

pub open spec fn lexes(s: Seq<char>, toks: Seq<Result<Token, Error>>) -> bool {
    exists|ps: Seq<int>| tokenization(s, toks, ps)
}

proof fn lemma_skip_space_bounds(s: Seq<char>, i: int)
    requires
        0 <= i <= s.len(),
    ensures
        i <= skip_space(s, i) <= s.len(),
    decreases s.len() - i,
{
    if i < s.len() && is_white_space(s[i]) {
        lemma_skip_space_bounds(s, i + 1);
    }
}

/// Every pull that yields something moves forward.
proof fn lemma_pull_advances(s: Seq<char>, i: int, r: Option<Result<Token, Error>>, j: int)
    requires
        0 <= i <= s.len(),
        lexed(s, i, r, j),
        r is Some,
    ensures
        i < j,
{
    lemma_skip_space_bounds(s, i);
    let k = skip_space(s, i);
    if is_digit(s[k]) {
        lemma_skip_digits_bounds(s, k + 1);
        assert(skip_digits(s, k) == skip_digits(s, k + 1));
        let m = skip_digits(s, k);
        if m < s.len() && s[m] == '.' {
            lemma_skip_digits_bounds(s, m + 1);
        }
    }
}

/// All the tokens of `input`, errors included, in order.
pub fn tokenize(input: &str) -> (r: Vec<Result<Token, Error>>)
    ensures
        lexes(input@, r@),
{
    let mut lexer = Lexer::new(input);
    let mut toks: Vec<Result<Token, Error>> = Vec::new();
    let ghost mut ps: Seq<int> = seq![0int];
    loop
        invariant
            lexer.wf(),
            lexer.chars@ == input@,
            ps.len() == toks@.len() + 1,
            ps[0] == 0,
            ps[toks@.len() as int] == lexer.pos,
            forall|k: int|
                0 <= k < toks@.len() ==> #[trigger] lexed(input@, ps[k], Some(toks@[k]), ps[k + 1]),
        decreases input@.len() - lexer.pos,
    {
        let ghost before = lexer.pos as int;
        match lexer.next() {
            None => {
                assert(tokenization(input@, toks@, ps));
                return toks;
            },
            Some(t) => {
                proof {
                    lemma_pull_advances(input@, before, Some(t), lexer.pos as int);
                }
                let ghost tg = t;
                toks.push(t);
                proof {
                    ps = ps.push(lexer.pos as int);
                    assert forall|k: int| 0 <= k < toks@.len() implies #[trigger] lexed(
                        input@,
                        ps[k],
                        Some(toks@[k]),
                        ps[k + 1],
                    ) by {
                        if k == toks@.len() - 1 {
                            assert(toks@[k] == tg);
                        }
                    }
                }
            },
        }
    }
}

} // verus!
