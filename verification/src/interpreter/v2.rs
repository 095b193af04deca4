//! The parser: tokens to an expression tree, by recursive descent over
//!
//! ```text
//! expression = term (("+" | "-") term)*
//! term       = factor (("*" | "/") factor)*
//! factor     = NUMBER | "-" factor | "(" expression ")"
//! ```
use vstd::prelude::*;

pub use super::v1::{lex, lex_chars, push_token_debug, token_debug, LexError, Lexed, Token};

verus! {

/// An expression tree.
#[derive(Debug, PartialEq)]
#[allow(inconsistent_fields)]
pub enum Expr {
    Number(i64),
    Unary { op: UnOp, operand: Box<Expr> },
    Binary { op: BinOp, left: Box<Expr>, right: Box<Expr> },
}

impl Clone for Expr {
    fn clone(&self) -> (r: Self)
        ensures
            r == *self,
        decreases self,
    {
        match self {
            Expr::Number(v) => Expr::Number(*v),
            Expr::Unary { op, operand } => Expr::Unary {
                op: *op,
                operand: Box::new((**operand).clone()),
            },
            Expr::Binary { op, left, right } => Expr::Binary {
                op: *op,
                left: Box::new((**left).clone()),
                right: Box::new((**right).clone()),
            },
        }
    }
}

#[derive(Debug, Clone, Copy, PartialEq, Eq, Structural)]
pub enum UnOp {
    Negate,
}

#[derive(Debug, Clone, Copy, PartialEq, Eq, Structural)]
pub enum BinOp {
    Add,
    Subtract,
    Multiply,
    Divide,
}

/// Why a token sequence is not an expression.
#[derive(Debug, Clone, Copy, PartialEq, Eq, Structural)]
pub enum ParseError {
    UnexpectedEnd,
    UnexpectedToken(Token),
    ExpectedRightParen,
}

impl ParseError {
    /// What went wrong, in words.
    pub fn to_string(&self) -> (r: String)
        ensures
            r@ == match self {
                ParseError::UnexpectedEnd => "unexpected end of input"@,
                ParseError::UnexpectedToken(t) => "unexpected token "@ + token_debug(*t),
                ParseError::ExpectedRightParen => "expected a closing parenthesis"@,
            },
    {
        match self {
            ParseError::UnexpectedEnd => "unexpected end of input".to_string(),
            ParseError::UnexpectedToken(t) => {
                let mut out = "unexpected token ".to_string();
                push_token_debug(&mut out, *t);
                out
            },
            ParseError::ExpectedRightParen => "expected a closing parenthesis".to_string(),
        }
    }
}

/// What parsing from a position comes to: the tree and the position after
/// it, or the error.
pub type Parsed = Result<(Expr, int), ParseError>;

pub open spec fn additive_op(t: Token) -> Option<BinOp> {
    match t {
        Token::Plus => Some(BinOp::Add),
        Token::Minus => Some(BinOp::Subtract),
        _ => None,
    }
}

pub open spec fn multiplicative_op(t: Token) -> Option<BinOp> {
    match t {
        Token::Star => Some(BinOp::Multiply),
        Token::Slash => Some(BinOp::Divide),
        _ => None,
    }
}

/// `factor = NUMBER | "-" factor | "(" expression ")"`, read from `pos`.
pub open spec fn parse_factor(ts: Seq<Token>, pos: int) -> Parsed
    decreases ts.len() - pos, 0int,
{
    if pos < 0 || pos >= ts.len() {
        Err(ParseError::UnexpectedEnd)
    } else {
        match ts[pos] {
            Token::Number(v) => Ok((Expr::Number(v), pos + 1)),
            Token::Minus => match parse_factor(ts, pos + 1) {
                Ok((e, p)) => Ok((Expr::Unary { op: UnOp::Negate, operand: Box::new(e) }, p)),
                Err(err) => Err(err),
            },
            Token::LeftParen => match parse_expression(ts, pos + 1) {
                Ok((inner, p)) => if 0 <= p < ts.len() && ts[p] == Token::RightParen {
                    Ok((inner, p + 1))
                } else {
                    Err(ParseError::ExpectedRightParen)
                },
                Err(err) => Err(err),
            },
            other => Err(ParseError::UnexpectedToken(other)),
        }
    }
}

/// The `(("*" | "/") factor)*` part of a term, after `left` and from `pos`.
pub open spec fn parse_term_tail(ts: Seq<Token>, left: Expr, pos: int) -> Parsed
    decreases ts.len() - pos, 1int,
{
    if 0 <= pos < ts.len() && multiplicative_op(ts[pos]) is Some {
        let op = multiplicative_op(ts[pos])->0;
        match parse_factor(ts, pos + 1) {
            Ok((right, p)) => if pos < p <= ts.len() {
                parse_term_tail(
                    ts,
                    Expr::Binary { op, left: Box::new(left), right: Box::new(right) },
                    p,
                )
            } else {
                Err(ParseError::UnexpectedEnd)
            },
            Err(err) => Err(err),
        }
    } else {
        Ok((left, pos))
    }
}

/// `term = factor (("*" | "/") factor)*`, read from `pos`.
pub open spec fn parse_term(ts: Seq<Token>, pos: int) -> Parsed
    decreases ts.len() - pos, 2int,
{
    match parse_factor(ts, pos) {
        Ok((left, p)) => if pos < p <= ts.len() {
            parse_term_tail(ts, left, p)
        } else {
            Err(ParseError::UnexpectedEnd)
        },
        Err(err) => Err(err),
    }
}

/// The `(("+" | "-") term)*` part of an expression, after `left` and from
/// `pos`.
pub open spec fn parse_expression_tail(ts: Seq<Token>, left: Expr, pos: int) -> Parsed
    decreases ts.len() - pos, 3int,
{
    if 0 <= pos < ts.len() && additive_op(ts[pos]) is Some {
        let op = additive_op(ts[pos])->0;
        match parse_term(ts, pos + 1) {
            Ok((right, p)) => if pos < p <= ts.len() {
                parse_expression_tail(
                    ts,
                    Expr::Binary { op, left: Box::new(left), right: Box::new(right) },
                    p,
                )
            } else {
                Err(ParseError::UnexpectedEnd)
            },
            Err(err) => Err(err),
        }
    } else {
        Ok((left, pos))
    }
}

/// `expression = term (("+" | "-") term)*`, read from `pos`.
pub open spec fn parse_expression(ts: Seq<Token>, pos: int) -> Parsed
    decreases ts.len() - pos, 4int,
{
    match parse_term(ts, pos) {
        Ok((left, p)) => if pos < p <= ts.len() {
            parse_expression_tail(ts, left, p)
        } else {
            Err(ParseError::UnexpectedEnd)
        },
        Err(err) => Err(err),
    }
}

/// What a successful parse from `pos` ends at: no earlier than `pos` and
/// no later than the end.
pub open spec fn ends_in_range(r: Parsed, ts: Seq<Token>, pos: int) -> bool {
    r matches Ok((_, q)) ==> pos <= q <= ts.len()
}

/// Whether `x` can continue no expression: it is no operator.
pub open spec fn continues_nothing(x: Token) -> bool {
    additive_op(x) is None && multiplicative_op(x) is None
}

proof fn lemma_factor_extends(ts: Seq<Token>, x: Token, pos: int)
    requires
        continues_nothing(x),
        0 <= pos <= ts.len(),
    ensures
        ends_in_range(parse_factor(ts, pos), ts, pos),
        parse_factor(ts, pos) is Ok ==> parse_factor(ts.push(x), pos) == parse_factor(ts, pos),
    decreases ts.len() - pos, 0int,
{
    let u = ts.push(x);
    if pos < ts.len() {
        assert(u[pos] == ts[pos]);
        match ts[pos] {
            Token::Minus => {
                lemma_factor_extends(ts, x, pos + 1);
            },
            Token::LeftParen => {
                lemma_expression_extends(ts, x, pos + 1);
                if let Ok((_, p)) = parse_expression(ts, pos + 1) {
                    if 0 <= p < ts.len() {
                        assert(u[p] == ts[p]);
                    }
                }
            },
            _ => {},
        }
    }
}

proof fn lemma_term_tail_extends(ts: Seq<Token>, x: Token, left: Expr, pos: int)
    requires
        continues_nothing(x),
        0 <= pos <= ts.len(),
    ensures
        ends_in_range(parse_term_tail(ts, left, pos), ts, pos),
        parse_term_tail(ts, left, pos) is Ok ==> parse_term_tail(ts.push(x), left, pos)
            == parse_term_tail(ts, left, pos),
    decreases ts.len() - pos, 1int,
{
    let u = ts.push(x);
    if pos < ts.len() {
        assert(u[pos] == ts[pos]);
        if multiplicative_op(ts[pos]) is Some {
            let op = multiplicative_op(ts[pos])->0;
            lemma_factor_extends(ts, x, pos + 1);
            if let Ok((right, p)) = parse_factor(ts, pos + 1) {
                if pos < p <= ts.len() {
                    lemma_term_tail_extends(
                        ts,
                        x,
                        Expr::Binary { op, left: Box::new(left), right: Box::new(right) },
                        p,
                    );
                }
            }
        }
    } else {
        assert(u[pos] == x);
    }
}

proof fn lemma_term_extends(ts: Seq<Token>, x: Token, pos: int)
    requires
        continues_nothing(x),
        0 <= pos <= ts.len(),
    ensures
        ends_in_range(parse_term(ts, pos), ts, pos),
        parse_term(ts, pos) is Ok ==> parse_term(ts.push(x), pos) == parse_term(ts, pos),
    decreases ts.len() - pos, 2int,
{
    lemma_factor_extends(ts, x, pos);
    if let Ok((left, p)) = parse_factor(ts, pos) {
        if pos < p <= ts.len() {
            lemma_term_tail_extends(ts, x, left, p);
        }
    }
}

proof fn lemma_expression_tail_extends(ts: Seq<Token>, x: Token, left: Expr, pos: int)
    requires
        continues_nothing(x),
        0 <= pos <= ts.len(),
    ensures
        ends_in_range(parse_expression_tail(ts, left, pos), ts, pos),
        parse_expression_tail(ts, left, pos) is Ok ==> parse_expression_tail(ts.push(x), left, pos)
            == parse_expression_tail(ts, left, pos),
    decreases ts.len() - pos, 3int,
{
    let u = ts.push(x);
    if pos < ts.len() {
        assert(u[pos] == ts[pos]);
        if additive_op(ts[pos]) is Some {
            let op = additive_op(ts[pos])->0;
            lemma_term_extends(ts, x, pos + 1);
            if let Ok((right, p)) = parse_term(ts, pos + 1) {
                if pos < p <= ts.len() {
                    lemma_expression_tail_extends(
                        ts,
                        x,
                        Expr::Binary { op, left: Box::new(left), right: Box::new(right) },
                        p,
                    );
                }
            }
        }
    } else {
        assert(u[pos] == x);
    }
}

proof fn lemma_expression_extends(ts: Seq<Token>, x: Token, pos: int)
    requires
        continues_nothing(x),
        0 <= pos <= ts.len(),
    ensures
        ends_in_range(parse_expression(ts, pos), ts, pos),
        parse_expression(ts, pos) is Ok ==> parse_expression(ts.push(x), pos) == parse_expression(
            ts,
            pos,
        ),
    decreases ts.len() - pos, 4int,
{
    lemma_term_extends(ts, x, pos);
    if let Ok((left, p)) = parse_term(ts, pos) {
        if pos < p <= ts.len() {
            lemma_expression_tail_extends(ts, x, left, p);
        }
    }
}

/// A successful parse reads every token; a number or a parenthesis after
/// it is reported as an unexpected token, never silently dropped.
pub proof fn lemma_trailing_token_reported(ts: Seq<Token>, x: Token)
    requires
        parse_tokens(ts) is Ok,
        x is Number || x is LeftParen || x is RightParen,
    ensures
        parse_tokens(ts.push(x)) == Err::<Expr, ParseError>(ParseError::UnexpectedToken(x)),
{
    lemma_expression_extends(ts, x, 0);
    assert(ts.push(x)[ts.len() as int] == x);
}

/// The operation an operator token names: `+` adds, `-` subtracts, `*`
/// multiplies and `/` divides.
pub open spec fn operation_named(t: Token) -> BinOp {
    match t {
        Token::Plus => BinOp::Add,
        Token::Minus => BinOp::Subtract,
        Token::Star => BinOp::Multiply,
        _ => BinOp::Divide,
    }
}

/// Whether `t` is one of the four operator tokens.
pub open spec fn is_operator(t: Token) -> bool {
    t is Plus || t is Minus || t is Star || t is Slash
}

/// `*` and `/` bind more tightly than `+` and `-`, and operators of the
/// same strength group to the left: `a x b y c` is read `a x (b y c)` where
/// `x` is `+` or `-` and `y` is `*` or `/`, and `(a x b) y c` otherwise.
pub proof fn lemma_precedence_and_left_associativity(a: i64, x: Token, b: i64, y: Token, c: i64)
    requires
        is_operator(x),
        is_operator(y),
    ensures
        ({
            let ts = seq![Token::Number(a), x, Token::Number(b), y, Token::Number(c)];
            let na = Expr::Number(a);
            let nb = Expr::Number(b);
            let nc = Expr::Number(c);
            let left_first = Expr::Binary {
                op: operation_named(y),
                left: Box::new(Expr::Binary { op: operation_named(x), left: Box::new(na), right: Box::new(nb) }),
                right: Box::new(nc),
            };
            let right_first = Expr::Binary {
                op: operation_named(x),
                left: Box::new(na),
                right: Box::new(Expr::Binary { op: operation_named(y), left: Box::new(nb), right: Box::new(nc) }),
            };
            parse_tokens(ts) == Ok::<Expr, ParseError>(
                if (x is Plus || x is Minus) && (y is Star || y is Slash) {
                    right_first
                } else {
                    left_first
                },
            )
        }),
{
    let ts = seq![Token::Number(a), x, Token::Number(b), y, Token::Number(c)];
    let na = Expr::Number(a);
    let nb = Expr::Number(b);
    let nc = Expr::Number(c);
    assert(parse_factor(ts, 0) == Ok::<(Expr, int), ParseError>((na, 1)));
    assert(parse_factor(ts, 2) == Ok::<(Expr, int), ParseError>((nb, 3)));
    assert(parse_factor(ts, 4) == Ok::<(Expr, int), ParseError>((nc, 5)));
    assert(parse_term_tail(ts, nc, 5) == Ok::<(Expr, int), ParseError>((nc, 5)));
    assert(parse_term(ts, 4) == Ok::<(Expr, int), ParseError>((nc, 5)));
    let ex = Expr::Binary { op: operation_named(x), left: Box::new(na), right: Box::new(nb) };
    let ey = Expr::Binary { op: operation_named(y), left: Box::new(nb), right: Box::new(nc) };
    if x is Star || x is Slash {
        assert(multiplicative_op(x) == Some(operation_named(x)));
        let e = Expr::Binary { op: operation_named(y), left: Box::new(ex), right: Box::new(nc) };
        assert(parse_expression_tail(ts, e, 5) == Ok::<(Expr, int), ParseError>((e, 5)));
        assert(parse_term_tail(ts, e, 5) == Ok::<(Expr, int), ParseError>((e, 5)));
        if y is Star || y is Slash {
            assert(multiplicative_op(y) == Some(operation_named(y)));
            assert(parse_term_tail(ts, ex, 3) == Ok::<(Expr, int), ParseError>((e, 5)));
            assert(parse_term_tail(ts, na, 1) == Ok::<(Expr, int), ParseError>((e, 5)));
            assert(parse_term(ts, 0) == Ok::<(Expr, int), ParseError>((e, 5)));
        } else {
            assert(additive_op(y) == Some(operation_named(y)));
            assert(parse_term_tail(ts, ex, 3) == Ok::<(Expr, int), ParseError>((ex, 3)));
            assert(parse_term_tail(ts, na, 1) == Ok::<(Expr, int), ParseError>((ex, 3)));
            assert(parse_term(ts, 0) == Ok::<(Expr, int), ParseError>((ex, 3)));
            assert(parse_expression_tail(ts, ex, 3) == Ok::<(Expr, int), ParseError>((e, 5)));
        }
        assert(parse_expression(ts, 0) == Ok::<(Expr, int), ParseError>((e, 5)));
    } else {
        assert(additive_op(x) == Some(operation_named(x)));
        assert(parse_term_tail(ts, na, 1) == Ok::<(Expr, int), ParseError>((na, 1)));
        assert(parse_term(ts, 0) == Ok::<(Expr, int), ParseError>((na, 1)));
        if y is Star || y is Slash {
            assert(multiplicative_op(y) == Some(operation_named(y)));
            let e = Expr::Binary { op: operation_named(x), left: Box::new(na), right: Box::new(ey) };
            assert(parse_term_tail(ts, ey, 5) == Ok::<(Expr, int), ParseError>((ey, 5)));
            assert(parse_term_tail(ts, nb, 3) == Ok::<(Expr, int), ParseError>((ey, 5)));
            assert(parse_term(ts, 2) == Ok::<(Expr, int), ParseError>((ey, 5)));
            assert(parse_expression_tail(ts, e, 5) == Ok::<(Expr, int), ParseError>((e, 5)));
            assert(parse_expression_tail(ts, na, 1) == Ok::<(Expr, int), ParseError>((e, 5)));
            assert(parse_expression(ts, 0) == Ok::<(Expr, int), ParseError>((e, 5)));
        } else {
            assert(additive_op(y) == Some(operation_named(y)));
            let e = Expr::Binary { op: operation_named(y), left: Box::new(ex), right: Box::new(nc) };
            assert(parse_term_tail(ts, nb, 3) == Ok::<(Expr, int), ParseError>((nb, 3)));
            assert(parse_term(ts, 2) == Ok::<(Expr, int), ParseError>((nb, 3)));
            assert(parse_expression_tail(ts, e, 5) == Ok::<(Expr, int), ParseError>((e, 5)));
            assert(parse_expression_tail(ts, ex, 3) == Ok::<(Expr, int), ParseError>((e, 5)));
            assert(parse_expression_tail(ts, na, 1) == Ok::<(Expr, int), ParseError>((e, 5)));
            assert(parse_expression(ts, 0) == Ok::<(Expr, int), ParseError>((e, 5)));
        }
    }
}

/// A leading minus negates only the factor after it: `- a x b` is read
/// `(-a) x b` for any operator `x`.
pub proof fn lemma_negation_binds_tightest(a: i64, x: Token, b: i64)
    requires
        is_operator(x),
    ensures
        parse_tokens(seq![Token::Minus, Token::Number(a), x, Token::Number(b)]) == Ok::<
            Expr,
            ParseError,
        >(
            Expr::Binary {
                op: operation_named(x),
                left: Box::new(
                    Expr::Unary { op: UnOp::Negate, operand: Box::new(Expr::Number(a)) },
                ),
                right: Box::new(Expr::Number(b)),
            },
        ),
{
    let ts = seq![Token::Minus, Token::Number(a), x, Token::Number(b)];
    let neg = Expr::Unary { op: UnOp::Negate, operand: Box::new(Expr::Number(a)) };
    let nb = Expr::Number(b);
    let e = Expr::Binary { op: operation_named(x), left: Box::new(neg), right: Box::new(nb) };
    assert(parse_factor(ts, 1) == Ok::<(Expr, int), ParseError>((Expr::Number(a), 2)));
    assert(parse_factor(ts, 0) == Ok::<(Expr, int), ParseError>((neg, 2)));
    assert(parse_factor(ts, 3) == Ok::<(Expr, int), ParseError>((nb, 4)));
    assert(parse_term_tail(ts, nb, 4) == Ok::<(Expr, int), ParseError>((nb, 4)));
    assert(parse_term(ts, 3) == Ok::<(Expr, int), ParseError>((nb, 4)));
    assert(parse_expression_tail(ts, e, 4) == Ok::<(Expr, int), ParseError>((e, 4)));
    assert(parse_term_tail(ts, e, 4) == Ok::<(Expr, int), ParseError>((e, 4)));
    if x is Star || x is Slash {
        assert(multiplicative_op(x) == Some(operation_named(x)));
        assert(parse_term_tail(ts, neg, 2) == Ok::<(Expr, int), ParseError>((e, 4)));
        assert(parse_term(ts, 0) == Ok::<(Expr, int), ParseError>((e, 4)));
    } else {
        assert(additive_op(x) == Some(operation_named(x)));
        assert(parse_term_tail(ts, neg, 2) == Ok::<(Expr, int), ParseError>((neg, 2)));
        assert(parse_term(ts, 0) == Ok::<(Expr, int), ParseError>((neg, 2)));
        assert(parse_expression_tail(ts, neg, 2) == Ok::<(Expr, int), ParseError>((e, 4)));
    }
    assert(parse_expression(ts, 0) == Ok::<(Expr, int), ParseError>((e, 4)));
}

/// Parentheses group first, whatever the operators: `(a x b) y c` is read
/// with `a x b` as the left operand of `y`.
pub proof fn lemma_parentheses_group(a: i64, x: Token, b: i64, y: Token, c: i64)
    requires
        is_operator(x),
        is_operator(y),
    ensures
        parse_tokens(
            seq![
                Token::LeftParen,
                Token::Number(a),
                x,
                Token::Number(b),
                Token::RightParen,
                y,
                Token::Number(c),
            ],
        ) == Ok::<Expr, ParseError>(
            Expr::Binary {
                op: operation_named(y),
                left: Box::new(
                    Expr::Binary {
                        op: operation_named(x),
                        left: Box::new(Expr::Number(a)),
                        right: Box::new(Expr::Number(b)),
                    },
                ),
                right: Box::new(Expr::Number(c)),
            },
        ),
{
    let ts = seq![
        Token::LeftParen,
        Token::Number(a),
        x,
        Token::Number(b),
        Token::RightParen,
        y,
        Token::Number(c),
    ];
    let na = Expr::Number(a);
    let nb = Expr::Number(b);
    let nc = Expr::Number(c);
    let ex = Expr::Binary { op: operation_named(x), left: Box::new(na), right: Box::new(nb) };
    let e = Expr::Binary { op: operation_named(y), left: Box::new(ex), right: Box::new(nc) };
    assert(parse_factor(ts, 1) == Ok::<(Expr, int), ParseError>((na, 2)));
    assert(parse_factor(ts, 3) == Ok::<(Expr, int), ParseError>((nb, 4)));
    assert(parse_factor(ts, 6) == Ok::<(Expr, int), ParseError>((nc, 7)));
    assert(parse_term_tail(ts, nb, 4) == Ok::<(Expr, int), ParseError>((nb, 4)));
    assert(parse_term_tail(ts, nc, 7) == Ok::<(Expr, int), ParseError>((nc, 7)));
    assert(parse_term(ts, 3) == Ok::<(Expr, int), ParseError>((nb, 4)));
    assert(parse_term(ts, 6) == Ok::<(Expr, int), ParseError>((nc, 7)));
    assert(parse_expression_tail(ts, ex, 4) == Ok::<(Expr, int), ParseError>((ex, 4)));
    assert(parse_term_tail(ts, ex, 4) == Ok::<(Expr, int), ParseError>((ex, 4)));
    if x is Star || x is Slash {
        assert(multiplicative_op(x) == Some(operation_named(x)));
        assert(parse_term_tail(ts, na, 2) == Ok::<(Expr, int), ParseError>((ex, 4)));
        assert(parse_term(ts, 1) == Ok::<(Expr, int), ParseError>((ex, 4)));
    } else {
        assert(additive_op(x) == Some(operation_named(x)));
        assert(parse_term_tail(ts, na, 2) == Ok::<(Expr, int), ParseError>((na, 2)));
        assert(parse_term(ts, 1) == Ok::<(Expr, int), ParseError>((na, 2)));
        assert(parse_expression_tail(ts, na, 2) == Ok::<(Expr, int), ParseError>((ex, 4)));
    }
    assert(parse_expression(ts, 1) == Ok::<(Expr, int), ParseError>((ex, 4)));
    assert(parse_factor(ts, 0) == Ok::<(Expr, int), ParseError>((ex, 5)));
    assert(parse_expression_tail(ts, e, 7) == Ok::<(Expr, int), ParseError>((e, 7)));
    assert(parse_term_tail(ts, e, 7) == Ok::<(Expr, int), ParseError>((e, 7)));
    if y is Star || y is Slash {
        assert(multiplicative_op(y) == Some(operation_named(y)));
        assert(parse_term_tail(ts, ex, 5) == Ok::<(Expr, int), ParseError>((e, 7)));
        assert(parse_term(ts, 0) == Ok::<(Expr, int), ParseError>((e, 7)));
    } else {
        assert(additive_op(y) == Some(operation_named(y)));
        assert(parse_term_tail(ts, ex, 5) == Ok::<(Expr, int), ParseError>((ex, 5)));
        assert(parse_term(ts, 0) == Ok::<(Expr, int), ParseError>((ex, 5)));
        assert(parse_expression_tail(ts, ex, 5) == Ok::<(Expr, int), ParseError>((e, 7)));
    }
    assert(parse_expression(ts, 0) == Ok::<(Expr, int), ParseError>((e, 7)));
}

/// A whole token sequence read as one expression; tokens left over after
/// it are an error.
pub open spec fn parse_tokens(ts: Seq<Token>) -> Result<Expr, ParseError> {
    match parse_expression(ts, 0) {
        Ok((e, p)) => if 0 <= p < ts.len() {
            Err(ParseError::UnexpectedToken(ts[p]))
        } else {
            Ok(e)
        },
        Err(err) => Err(err),
    }
}

/// Parses `tokens` as one expression.
pub fn parse(tokens: &[Token]) -> (r: Result<Expr, ParseError>)
    ensures
        r == parse_tokens(tokens@),
{
    let mut parser = Parser { tokens, position: 0 };
    let expr = parser.expression()?;
    match parser.peek() {
        None => Ok(expr),
        Some(token) => Err(ParseError::UnexpectedToken(*token)),
    }
}

/// A cursor over the tokens being parsed.
struct Parser<'a> {
    tokens: &'a [Token],
    position: usize,
}

/// How a parsing method's result and final position follow the grammar.
pub open spec fn parsed_as(spec: Parsed, r: Result<Expr, ParseError>, end: int, start: int, len: int) -> bool {
    match spec {
        Ok((e, p)) => r == Ok::<Expr, ParseError>(e) && end == p && start < p <= len,
        Err(err) => r == Err::<Expr, ParseError>(err),
    }
}

impl<'a> Parser<'a> {
    // expression = term (("+" | "-") term)*
    fn expression(&mut self) -> (r: Result<Expr, ParseError>)
        requires
            old(self).position <= old(self).tokens@.len(),
        ensures
            final(self).tokens == old(self).tokens,
            parsed_as(
                parse_expression(old(self).tokens@, old(self).position as int),
                r,
                final(self).position as int,
                old(self).position as int,
                old(self).tokens@.len() as int,
            ),
        decreases old(self).tokens@.len() - old(self).position, 4int,
    {
        let ghost ts = self.tokens@;
        let ghost start = self.position as int;
        let mut left = self.term()?;
        loop
            invariant
                self.tokens == old(self).tokens,
                ts == old(self).tokens@,
                start == old(self).position,
                self.tokens@ == ts,
                start < self.position <= ts.len(),
                parse_expression(ts, start) == parse_expression_tail(
                    ts,
                    left,
                    self.position as int,
                ),
            ensures
                self.tokens == old(self).tokens,
                start < self.position <= ts.len(),
                parse_expression(ts, start) == Ok::<(Expr, int), ParseError>((left, self.position as int)),
            decreases ts.len() - self.position,
        {
            let ghost pos = self.position as int;
            let op = match self.match_additive() {
                Some(op) => op,
                None => {
                    break ;
                },
            };
            let right = self.term()?;
            left = Expr::Binary { op, left: Box::new(left), right: Box::new(right) };
            assert(pos < self.position);
        }
        Ok(left)
    }

    // term = factor (("*" | "/") factor)*
    fn term(&mut self) -> (r: Result<Expr, ParseError>)
        requires
            old(self).position <= old(self).tokens@.len(),
        ensures
            final(self).tokens == old(self).tokens,
            parsed_as(
                parse_term(old(self).tokens@, old(self).position as int),
                r,
                final(self).position as int,
                old(self).position as int,
                old(self).tokens@.len() as int,
            ),
        decreases old(self).tokens@.len() - old(self).position, 2int,
    {
        let ghost ts = self.tokens@;
        let ghost start = self.position as int;
        let mut left = self.factor()?;
        loop
            invariant
                self.tokens == old(self).tokens,
                ts == old(self).tokens@,
                start == old(self).position,
                self.tokens@ == ts,
                start < self.position <= ts.len(),
                parse_term(ts, start) == parse_term_tail(ts, left, self.position as int),
            ensures
                self.tokens == old(self).tokens,
                start < self.position <= ts.len(),
                parse_term(ts, start) == Ok::<(Expr, int), ParseError>((left, self.position as int)),
            decreases ts.len() - self.position,
        {
            let ghost pos = self.position as int;
            let op = match self.match_multiplicative() {
                Some(op) => op,
                None => {
                    break ;
                },
            };
            let right = self.factor()?;
            left = Expr::Binary { op, left: Box::new(left), right: Box::new(right) };
            assert(pos < self.position);
        }
        Ok(left)
    }

    // factor = NUMBER | "-" factor | "(" expression ")"
    fn factor(&mut self) -> (r: Result<Expr, ParseError>)
        requires
            old(self).position <= old(self).tokens@.len(),
        ensures
            final(self).tokens == old(self).tokens,
            parsed_as(
                parse_factor(old(self).tokens@, old(self).position as int),
                r,
                final(self).position as int,
                old(self).position as int,
                old(self).tokens@.len() as int,
            ),
        decreases old(self).tokens@.len() - old(self).position, 0int,
    {
        match self.advance() {
            Some(Token::Number(value)) => Ok(Expr::Number(*value)),
            Some(Token::Minus) => Ok(Expr::Unary { op: UnOp::Negate, operand: Box::new(self.factor()?) }),
            Some(Token::LeftParen) => {
                let inner = self.expression()?;
                match self.advance() {
                    Some(Token::RightParen) => Ok(inner),
                    _ => Err(ParseError::ExpectedRightParen),
                }
            },
            Some(token) => Err(ParseError::UnexpectedToken(*token)),
            None => Err(ParseError::UnexpectedEnd),
        }
    }

    fn match_additive(&mut self) -> (r: Option<BinOp>)
        requires
            old(self).position <= old(self).tokens@.len(),
        ensures
            final(self).tokens == old(self).tokens,
            ({
                let ts = old(self).tokens@;
                let pos = old(self).position as int;
                if pos < ts.len() && additive_op(ts[pos]) is Some {
                    r == additive_op(ts[pos]) && final(self).position == pos + 1
                } else {
                    r is None && final(self).position == pos
                }
            }),
    {
        let op = match self.peek() {
            Some(Token::Plus) => BinOp::Add,
            Some(Token::Minus) => BinOp::Subtract,
            _ => {
                return None;
            },
        };
        self.advance();
        Some(op)
    }

    fn match_multiplicative(&mut self) -> (r: Option<BinOp>)
        requires
            old(self).position <= old(self).tokens@.len(),
        ensures
            final(self).tokens == old(self).tokens,
            ({
                let ts = old(self).tokens@;
                let pos = old(self).position as int;
                if pos < ts.len() && multiplicative_op(ts[pos]) is Some {
                    r == multiplicative_op(ts[pos]) && final(self).position == pos + 1
                } else {
                    r is None && final(self).position == pos
                }
            }),
    {
        let op = match self.peek() {
            Some(Token::Star) => BinOp::Multiply,
            Some(Token::Slash) => BinOp::Divide,
            _ => {
                return None;
            },
        };
        self.advance();
        Some(op)
    }

    fn peek(&self) -> (r: Option<&'a Token>)
        ensures
            self.position < self.tokens@.len() ==> r == Some(&self.tokens@[self.position as int]),
            self.position >= self.tokens@.len() ==> r is None,
    {
        if self.position < self.tokens.len() {
            Some(&self.tokens[self.position])
        } else {
            None
        }
    }

    fn advance(&mut self) -> (r: Option<&'a Token>)
        requires
            old(self).position <= old(self).tokens@.len(),
        ensures
            final(self).tokens == old(self).tokens,
            old(self).position < old(self).tokens@.len() ==> r == Some(
                &old(self).tokens@[old(self).position as int],
            ) && final(self).position == old(self).position + 1,
            old(self).position >= old(self).tokens@.len() ==> r is None && final(self).position
                == old(self).position,
    {
        let token = self.peek();
        if self.position < self.tokens.len() {
            self.position += 1;
        }
        token
    }
}

} // verus!
