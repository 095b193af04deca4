//! The tree-walking evaluator, and `run`: source text to value.
use vstd::prelude::*;

pub use super::v2::{
    lex, lex_chars, parse, parse_tokens, BinOp, Expr, LexError, Lexed, ParseError, Token, UnOp,
};

verus! {

/// An error that only shows when the program runs.
#[derive(Debug, Clone, Copy, PartialEq, Eq, Structural)]
pub enum RuntimeError {
    DivisionByZero,
}

impl RuntimeError {
    /// What went wrong, in words.
    pub fn to_string(&self) -> (r: String)
        ensures
            r@ == "division by zero"@,
    {
        "division by zero".to_string()
    }
}

/// What evaluating an expression comes to: its value, a runtime error, or a
/// result (final or intermediate) that does not fit in an `i64`.
pub enum Evaluated {
    Value(i64),
    Failed(RuntimeError),
    Overflow,
}

pub open spec fn fits(v: int) -> bool {
    i64::MIN <= v <= i64::MAX
}

pub open spec fn abs(v: int) -> int {
    if v < 0 {
        -v
    } else {
        v
    }
}

/// Integer division rounding toward zero, as Rust's `/` does.
pub open spec fn quotient(a: int, b: int) -> int {
    if (a < 0) == (b < 0) {
        abs(a) / abs(b)
    } else {
        -(abs(a) / abs(b))
    }
}

pub open spec fn checked(v: int) -> Evaluated {
    if fits(v) {
        Evaluated::Value(v as i64)
    } else {
        Evaluated::Overflow
    }
}

pub open spec fn apply_binary(op: BinOp, a: i64, b: i64) -> Evaluated {
    match op {
        BinOp::Add => checked(a + b),
        BinOp::Subtract => checked(a - b),
        BinOp::Multiply => checked(a * b),
        BinOp::Divide => if b == 0 {
            Evaluated::Failed(RuntimeError::DivisionByZero)
        } else {
            checked(quotient(a as int, b as int))
        },
    }
}

/// The value of `e`: operands are evaluated left to right, and the first
/// error or overflow met is the outcome.
pub open spec fn eval_expr(e: Expr) -> Evaluated
    decreases e,
{
    match e {
        Expr::Number(v) => Evaluated::Value(v),
        Expr::Unary { op: UnOp::Negate, operand } => match eval_expr(*operand) {
            Evaluated::Value(v) => checked(-v),
            other => other,
        },
        Expr::Binary { op, left, right } => match eval_expr(*left) {
            Evaluated::Value(a) => match eval_expr(*right) {
                Evaluated::Value(b) => apply_binary(op, a, b),
                other => other,
            },
            other => other,
        },
    }
}

/// The outcome that a result of `eval` reports.
pub open spec fn outcome_of(r: Result<i64, RuntimeError>) -> Evaluated {
    match r {
        Ok(v) => Evaluated::Value(v),
        Err(err) => Evaluated::Failed(err),
    }
}

/// `a / b`, rounding toward zero.
pub(crate) fn divide(a: i64, b: i64) -> (q: i64)
    requires
        b != 0,
        fits(quotient(a as int, b as int)),
    ensures
        q == quotient(a as int, b as int),
{
    match a.checked_div(b) {
        Some(q) => q,
        None => {
            assert(false);
            0
        },
    }
}

/// Evaluates `expr`.
pub fn eval(expr: &Expr) -> (r: Result<i64, RuntimeError>)
    requires
        !(eval_expr(*expr) is Overflow),
    ensures
        outcome_of(r) == eval_expr(*expr),
    decreases expr,
{
    match expr {
        Expr::Number(value) => Ok(*value),
        Expr::Unary { op: UnOp::Negate, operand } => {
            let v = eval(operand)?;
            Ok(-v)
        },
        Expr::Binary { op, left, right } => {
            let left = eval(left)?;
            let right = eval(right)?;
            match op {
                BinOp::Add => Ok(left + right),
                BinOp::Subtract => Ok(left - right),
                BinOp::Multiply => Ok(left * right),
                BinOp::Divide => {
                    if right == 0 {
                        Err(RuntimeError::DivisionByZero)
                    } else {
                        Ok(divide(left, right))
                    }
                },
            }
        },
    }
}

/// Any error from lexing, parsing or evaluating a program.
#[derive(Debug, Clone, Copy, PartialEq, Eq, Structural)]
pub enum InterpretError {
    Lex(LexError),
    Parse(ParseError),
    Runtime(RuntimeError),
}

impl From<LexError> for InterpretError {
    fn from(error: LexError) -> (r: InterpretError)
        ensures
            r == InterpretError::Lex(error),
    {
        InterpretError::Lex(error)
    }
}

impl vstd::std_specs::convert::FromSpecImpl<LexError> for InterpretError {
    open spec fn obeys_from_spec() -> bool {
        true
    }

    open spec fn from_spec(error: LexError) -> InterpretError {
        InterpretError::Lex(error)
    }
}

impl From<ParseError> for InterpretError {
    fn from(error: ParseError) -> (r: InterpretError)
        ensures
            r == InterpretError::Parse(error),
    {
        InterpretError::Parse(error)
    }
}

impl vstd::std_specs::convert::FromSpecImpl<ParseError> for InterpretError {
    open spec fn obeys_from_spec() -> bool {
        true
    }

    open spec fn from_spec(error: ParseError) -> InterpretError {
        InterpretError::Parse(error)
    }
}

impl From<RuntimeError> for InterpretError {
    fn from(error: RuntimeError) -> (r: InterpretError)
        ensures
            r == InterpretError::Runtime(error),
    {
        InterpretError::Runtime(error)
    }
}

impl vstd::std_specs::convert::FromSpecImpl<RuntimeError> for InterpretError {
    open spec fn obeys_from_spec() -> bool {
        true
    }

    open spec fn from_spec(error: RuntimeError) -> InterpretError {
        InterpretError::Runtime(error)
    }
}

/// What running the program `s` comes to; `None` where a number in it, or
/// a value computed on the way, does not fit in an `i64`.
pub open spec fn run_chars(s: Seq<char>) -> Option<Result<i64, InterpretError>> {
    match lex_chars(s) {
        Lexed::Overflow => None,
        Lexed::Unexpected(c) => Some(Err(InterpretError::Lex(LexError { unexpected: c }))),
        Lexed::Tokens(ts) => match parse_tokens(ts) {
            Err(err) => Some(Err(InterpretError::Parse(err))),
            Ok(e) => match eval_expr(e) {
                Evaluated::Overflow => None,
                Evaluated::Value(v) => Some(Ok(v)),
                Evaluated::Failed(err) => Some(Err(InterpretError::Runtime(err))),
            },
        },
    }
}

/// Running a program is lexing it, parsing the tokens and evaluating the
/// tree, and the first stage to fail gives the error: a lexing error before
/// any parsing error, a parsing error before any runtime error. This holds
/// of every program in which no number, and no value computed on the way,
/// overflows an `i64`.
pub proof fn lemma_run_composes(s: Seq<char>)
    requires
        run_chars(s) is Some,
    ensures
        lex_chars(s) matches Lexed::Unexpected(c) ==> run_chars(s) == Some(
            Err::<i64, InterpretError>(InterpretError::Lex(LexError { unexpected: c })),
        ),
        lex_chars(s) matches Lexed::Tokens(ts) ==> match parse_tokens(ts) {
            Err(e) => run_chars(s) == Some(Err::<i64, InterpretError>(InterpretError::Parse(e))),
            Ok(x) => match eval_expr(x) {
                Evaluated::Value(v) => run_chars(s) == Some(Ok::<i64, InterpretError>(v)),
                Evaluated::Failed(e) => run_chars(s) == Some(
                    Err::<i64, InterpretError>(InterpretError::Runtime(e)),
                ),
                Evaluated::Overflow => false,
            },
        },
        !(lex_chars(s) is Overflow),
{
}

/// Rust's `/` rounds toward zero: `quotient(a, b)` is the `q` whose
/// remainder `a - q * b` is smaller than `b` in size and is zero or has the
/// sign of `a`.
pub proof fn lemma_quotient_truncates(a: int, b: int)
    requires
        b != 0,
    ensures
        abs(a - quotient(a, b) * b) < abs(b),
        a - quotient(a, b) * b == 0 || (a - quotient(a, b) * b < 0) == (a < 0),
{
    let n = abs(a);
    let d = abs(b);
    let q0 = n / d;
    let r0 = n % d;
    vstd::arithmetic::div_mod::lemma_fundamental_div_mod(n, d);
    vstd::arithmetic::div_mod::lemma_mod_pos_bound(n, d);
    assert(n == d * q0 + r0);
    let q = quotient(a, b);
    if a >= 0 && b > 0 {
        assert(q == q0);
        assert(a - q * b == r0) by (nonlinear_arith)
            requires
                a == n,
                b == d,
                q == q0,
                n == d * q0 + r0,
        ;
    } else if a >= 0 && b < 0 {
        assert(q == -q0);
        assert(a - q * b == r0) by (nonlinear_arith)
            requires
                a == n,
                b == -d,
                q == -q0,
                n == d * q0 + r0,
        ;
    } else if a < 0 && b > 0 {
        assert(q == -q0);
        assert(a - q * b == -r0) by (nonlinear_arith)
            requires
                a == -n,
                b == d,
                q == -q0,
                n == d * q0 + r0,
        ;
    } else {
        assert(q == q0);
        assert(a - q * b == -r0) by (nonlinear_arith)
            requires
                a == -n,
                b == -d,
                q == q0,
                n == d * q0 + r0,
        ;
    }
}

/// A number is its own value.
pub proof fn lemma_number_evaluates_to_itself(v: i64)
    ensures
        eval_expr(Expr::Number(v)) == Evaluated::Value(v),
{
}

/// Negation is arithmetic negation: where `e` has the value `v`, `-e` has
/// the value that added to `v` gives zero, unless that does not fit in an
/// `i64` (`v` is `i64::MIN`), where it overflows; an error or overflow in
/// `e` is also that of `-e`.
pub proof fn lemma_negation_negates(e: Expr)
    ensures
        eval_expr(e) matches Evaluated::Value(v) ==> if v == i64::MIN {
            eval_expr(Expr::Unary { op: UnOp::Negate, operand: Box::new(e) }) is Overflow
        } else {
            eval_expr(Expr::Unary { op: UnOp::Negate, operand: Box::new(e) }) matches Evaluated::Value(
                r,
            ) && r + v == 0
        },
        !(eval_expr(e) is Value) ==> eval_expr(
            Expr::Unary { op: UnOp::Negate, operand: Box::new(e) },
        ) == eval_expr(e),
{
}

/// Each binary operation is its arithmetic on the operands' values, with
/// the left operand first: `+`, `-` and `*` give the sum, difference and
/// product, or overflow where that does not fit in an `i64`; `/` by zero
/// fails with `DivisionByZero`, and otherwise gives the quotient rounded
/// toward zero (its remainder is smaller than the divisor in size and is
/// zero or has the dividend's sign), overflowing only for `i64::MIN / -1`.
/// The operands are evaluated left to right, and the first error or
/// overflow met is the outcome.
pub proof fn lemma_binary_is_arithmetic(op: BinOp, left: Expr, right: Expr)
    ensures
        ({
            let x = eval_expr(Expr::Binary { op, left: Box::new(left), right: Box::new(right) });
            &&& !(eval_expr(left) is Value) ==> x == eval_expr(left)
            &&& eval_expr(left) is Value && !(eval_expr(right) is Value) ==> x == eval_expr(right)
            &&& eval_expr(left) matches Evaluated::Value(a) ==> (eval_expr(right) matches Evaluated::Value(b) ==> {
                let exact = match op {
                    BinOp::Add => a + b,
                    BinOp::Subtract => a - b,
                    BinOp::Multiply => a * b,
                    BinOp::Divide => 0,
                };
                match op {
                    BinOp::Divide => if b == 0 {
                        x == Evaluated::Failed(RuntimeError::DivisionByZero)
                    } else if a == i64::MIN && b == -1 {
                        x is Overflow
                    } else {
                        x matches Evaluated::Value(q) && abs(a - q * b) < abs(b as int) && (a - q
                            * b == 0 || (a - q * b < 0) == (a < 0))
                    },
                    _ => if i64::MIN <= exact <= i64::MAX {
                        x matches Evaluated::Value(r) && r == exact
                    } else {
                        x is Overflow
                    },
                }
            })
        }),
{
    if let (Evaluated::Value(a), Evaluated::Value(b)) = (eval_expr(left), eval_expr(right)) {
        if op == BinOp::Divide && b != 0 {
            lemma_quotient_truncates(a as int, b as int);
            if a == i64::MIN && b == -1 {
                assert(quotient(a as int, b as int) == -(a as int));
            } else {
                lemma_quotient_fits(a as int, b as int);
            }
        }
    }
}

/// The quotient of two `i64`s fits in an `i64` but for `i64::MIN / -1`.
proof fn lemma_quotient_fits(a: int, b: int)
    requires
        fits(a),
        fits(b),
        b != 0,
        !(a == i64::MIN && b == -1),
    ensures
        fits(quotient(a, b)),
{
    let n = abs(a);
    let d = abs(b);
    vstd::arithmetic::div_mod::lemma_fundamental_div_mod(n, d);
    vstd::arithmetic::div_mod::lemma_mod_pos_bound(n, d);
    assert(0 <= n / d <= n) by (nonlinear_arith)
        requires
            n >= 0,
            d >= 1,
            n == d * (n / d) + n % d,
            0 <= n % d < d,
    ;
    if d == 1 {
        assert(n / d == n) by (nonlinear_arith)
            requires
                d == 1,
                n == d * (n / d) + n % d,
                0 <= n % d < d,
        ;
    } else {
        assert(n / d < i64::MAX) by (nonlinear_arith)
            requires
                n <= 0x8000_0000_0000_0000,
                d >= 2,
                n == d * (n / d) + n % d,
                0 <= n % d < d,
                n / d >= 0,
        ;
    }
}

/// Lexes, parses and evaluates `source`.
pub fn run(source: &str) -> (r: Result<i64, InterpretError>)
    requires
        run_chars(source@) is Some,
    ensures
        Some(r) == run_chars(source@),
{
    let tokens = match lex(source) {
        Ok(tokens) => tokens,
        Err(error) => {
            return Err(InterpretError::Lex(error));
        },
    };
    let expr = match parse(tokens.as_slice()) {
        Ok(expr) => expr,
        Err(error) => {
            return Err(InterpretError::Parse(error));
        },
    };
    match eval(&expr) {
        Ok(value) => Ok(value),
        Err(error) => Err(InterpretError::Runtime(error)),
    }
}

} // verus!
