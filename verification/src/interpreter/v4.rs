//! A bytecode compiler and the stack machine that runs its output.
use vstd::prelude::*;

use super::v3::{
    abs, apply_binary, checked, divide, eval_expr, fits, lemma_binary_is_arithmetic, quotient,
    run_chars, Evaluated,
};

pub use super::v3::{
    lex, lex_chars, parse, parse_tokens, BinOp, Expr, InterpretError, LexError, Lexed,
    ParseError, RuntimeError, Token, UnOp,
};

verus! {

/// A single bytecode instruction for the stack machine.
#[derive(Debug, Clone, Copy, PartialEq, Eq, Structural)]
pub enum OpCode {
    Push(i64),
    Negate,
    Add,
    Subtract,
    Multiply,
    Divide,
}

/// The code of `e` in post order: operands first, then the operation.
pub open spec fn compile_expr(e: Expr) -> Seq<OpCode>
    decreases e,
{
    match e {
        Expr::Number(v) => seq![OpCode::Push(v)],
        Expr::Unary { op: UnOp::Negate, operand } => compile_expr(*operand).push(OpCode::Negate),
        Expr::Binary { op, left, right } => (compile_expr(*left) + compile_expr(*right)).push(
            opcode_of(op),
        ),
    }
}

pub open spec fn opcode_of(op: BinOp) -> OpCode {
    match op {
        BinOp::Add => OpCode::Add,
        BinOp::Subtract => OpCode::Subtract,
        BinOp::Multiply => OpCode::Multiply,
        BinOp::Divide => OpCode::Divide,
    }
}

/// The state of the machine: running with a stack, stopped by a runtime
/// error, or faulted (a pop from an empty stack, or an overflow).
pub enum Machine {
    Running(Seq<i64>),
    Failed(RuntimeError),
    Fault,
}

/// One instruction applied to the stack (its top is the last element).
pub open spec fn step(op: OpCode, stack: Seq<i64>) -> Machine {
    match op {
        OpCode::Push(v) => Machine::Running(stack.push(v)),
        OpCode::Negate => if stack.len() == 0 {
            Machine::Fault
        } else {
            match checked(-stack.last()) {
                Evaluated::Value(v) => Machine::Running(stack.drop_last().push(v)),
                _ => Machine::Fault,
            }
        },
        _ => if stack.len() < 2 {
            Machine::Fault
        } else {
            let n = stack.len() as int;
            let bop = match op {
                OpCode::Add => BinOp::Add,
                OpCode::Subtract => BinOp::Subtract,
                OpCode::Multiply => BinOp::Multiply,
                _ => BinOp::Divide,
            };
            match apply_binary(bop, stack[n - 2], stack[n - 1]) {
                Evaluated::Value(v) => Machine::Running(stack.take(n - 2).push(v)),
                Evaluated::Failed(err) => Machine::Failed(err),
                Evaluated::Overflow => Machine::Fault,
            }
        },
    }
}

/// The machine after running `code` from `stack`.
pub open spec fn run_code(code: Seq<OpCode>, stack: Seq<i64>) -> Machine
    decreases code.len(),
{
    if code.len() == 0 {
        Machine::Running(stack)
    } else {
        match step(code[0], stack) {
            Machine::Running(next) => run_code(code.drop_first(), next),
            other => other,
        }
    }
}

/// What `execute` returns for `code`: the top of the final stack, or the
/// runtime error; `None` where the machine faults or ends with an empty
/// stack.
pub open spec fn execute_code(code: Seq<OpCode>) -> Option<Result<i64, RuntimeError>> {
    match run_code(code, seq![]) {
        Machine::Running(stack) => if stack.len() > 0 {
            Some(Ok(stack.last()))
        } else {
            None
        },
        Machine::Failed(err) => Some(Err(err)),
        Machine::Fault => None,
    }
}

/// Compiles an expression tree into a flat list of instructions.
pub fn compile(expr: &Expr) -> (code: Vec<OpCode>)
    ensures
        code@ == compile_expr(*expr),
{
    let mut code = Vec::new();
    emit(expr, &mut code);
    assert(code@ =~= compile_expr(*expr));
    code
}

fn emit(expr: &Expr, code: &mut Vec<OpCode>)
    ensures
        final(code)@ == old(code)@ + compile_expr(*expr),
    decreases expr,
{
    match expr {
        Expr::Number(value) => code.push(OpCode::Push(*value)),
        Expr::Unary { op: UnOp::Negate, operand } => {
            emit(operand, code);
            code.push(OpCode::Negate);
        },
        Expr::Binary { op, left, right } => {
            emit(left, code);
            emit(right, code);
            code.push(
                match op {
                    BinOp::Add => OpCode::Add,
                    BinOp::Subtract => OpCode::Subtract,
                    BinOp::Multiply => OpCode::Multiply,
                    BinOp::Divide => OpCode::Divide,
                },
            );
        },
    }
    assert(final(code)@ =~= old(code)@ + compile_expr(*expr));
}

/// Runs `code` on an empty stack and returns the value left on top.
pub fn execute(code: &[OpCode]) -> (r: Result<i64, RuntimeError>)
    requires
        execute_code(code@) is Some,
    ensures
        Some(r) == execute_code(code@),
{
    let mut stack: Vec<i64> = Vec::new();
    let n = code.len();
    let mut i: usize = 0;
    assert(code@.skip(0) =~= code@);
    while i < n
        invariant
            n == code@.len(),
            i <= n,
            execute_code(code@) is Some,
            run_code(code@, seq![]) == run_code(code@.skip(i as int), stack@),
        decreases n - i,
    {
        let instruction = code[i];
        proof {
            assert(code@.skip(i as int)[0] == instruction);
            assert(code@.skip(i as int).drop_first() =~= code@.skip(i + 1));
        }
        match instruction {
            OpCode::Push(value) => stack.push(value),
            OpCode::Negate => {
                let value = stack.pop().expect("stack underflow");
                stack.push(-value);
            },
            OpCode::Add => binary(&mut stack, add_values)?,
            OpCode::Subtract => binary(&mut stack, subtract_values)?,
            OpCode::Multiply => binary(&mut stack, multiply_values)?,
            OpCode::Divide => binary(&mut stack, divide_values)?,
        }
        i = i + 1;
    }
    assert(code@.skip(n as int) =~= Seq::<OpCode>::empty());
    Ok(stack.pop().expect("stack underflow"))
}

fn add_values(a: i64, b: i64) -> (r: Result<i64, RuntimeError>)
    requires
        fits(a + b),
    ensures
        r == Ok::<i64, RuntimeError>((a + b) as i64),
{
    Ok(a + b)
}

fn subtract_values(a: i64, b: i64) -> (r: Result<i64, RuntimeError>)
    requires
        fits(a - b),
    ensures
        r == Ok::<i64, RuntimeError>((a - b) as i64),
{
    Ok(a - b)
}

fn multiply_values(a: i64, b: i64) -> (r: Result<i64, RuntimeError>)
    requires
        fits(a * b),
    ensures
        r == Ok::<i64, RuntimeError>((a * b) as i64),
{
    Ok(a * b)
}

fn divide_values(a: i64, b: i64) -> (r: Result<i64, RuntimeError>)
    requires
        b == 0 || fits(quotient(a as int, b as int)),
    ensures
        b == 0 ==> r == Err::<i64, RuntimeError>(RuntimeError::DivisionByZero),
        b != 0 ==> r == Ok::<i64, RuntimeError>(quotient(a as int, b as int) as i64),
{
    if b == 0 {
        Err(RuntimeError::DivisionByZero)
    } else {
        Ok(divide(a, b))
    }
}

/// Pops the right operand and then the left one, and pushes what `op`
/// makes of them.
fn binary(
    stack: &mut Vec<i64>,
    op: impl Fn(i64, i64) -> Result<i64, RuntimeError>,
) -> (r: Result<(), RuntimeError>)
    requires
        old(stack)@.len() >= 2,
        op.requires((old(stack)@[old(stack)@.len() - 2], old(stack)@[old(stack)@.len() - 1])),
    ensures
        ({
            let n = old(stack)@.len() as int;
            let args = (old(stack)@[n - 2], old(stack)@[n - 1]);
            &&& r is Ok ==> exists|v: i64|
                op.ensures(args, Ok::<i64, RuntimeError>(v)) && final(stack)@ == old(
                    stack,
                )@.take(n - 2).push(v)
            &&& r matches Err(err) ==> op.ensures(args, Err::<i64, RuntimeError>(err))
        }),
{
    let right = stack.pop().expect("stack underflow");
    let left = stack.pop().expect("stack underflow");
    let value = op(left, right)?;
    stack.push(value);
    proof {
        assert(stack@ =~= old(stack)@.take(old(stack)@.len() - 2).push(value));
    }
    Ok(())
}

/// What running the program `s` on the stack machine comes to; `None`
/// where a number in it, or a value computed on the way, does not fit in
/// an `i64`.
pub open spec fn run_chars_on_machine(s: Seq<char>) -> Option<Result<i64, InterpretError>> {
    match lex_chars(s) {
        Lexed::Overflow => None,
        Lexed::Unexpected(c) => Some(Err(InterpretError::Lex(LexError { unexpected: c }))),
        Lexed::Tokens(ts) => match parse_tokens(ts) {
            Err(err) => Some(Err(InterpretError::Parse(err))),
            Ok(e) => match execute_code(compile_expr(e)) {
                None => None,
                Some(Ok(v)) => Some(Ok(v)),
                Some(Err(err)) => Some(Err(InterpretError::Runtime(err))),
            },
        },
    }
}

/// Lexes, parses, compiles and executes `source`.
pub fn run(source: &str) -> (r: Result<i64, InterpretError>)
    requires
        run_chars_on_machine(source@) is Some,
    ensures
        Some(r) == run_chars_on_machine(source@),
{
    let tokens = match lex(source) {
        Ok(tokens) => tokens,
        Err(error) => {
            return Err(InterpretError::Lex(error));
        },
    };
    let expr = match parse(tokens.as_slice()) {
        Ok(expr) => expr,
        Err(error) => {
            return Err(InterpretError::Parse(error));
        },
    };
    let code = compile(&expr);
    match execute(code.as_slice()) {
        Ok(value) => Ok(value),
        Err(error) => Err(InterpretError::Runtime(error)),
    }
}

/// No code leaves the stack as it is.
pub proof fn lemma_run_no_code(stack: Seq<i64>)
    ensures
        run_code(Seq::empty(), stack) == Machine::Running(stack),
{
}

/// Each instruction on its own: `Push(v)` puts `v` on top; `Negate`
/// replaces the top `v` by the value that added to `v` gives zero, faulting
/// where that does not fit (`v` is `i64::MIN`); `Add`, `Subtract`,
/// `Multiply` and `Divide` replace the top two values, `a` under `b`, by
/// `a + b`, `a - b`, `a * b`, or the quotient of `a` by `b` rounded toward
/// zero, faulting where that does not fit, and `Divide` by zero stops the
/// machine with `DivisionByZero`; an instruction that finds too few values
/// on the stack faults. Everything below the operands stays as it was.
pub proof fn lemma_step_is_arithmetic(op: OpCode, stack: Seq<i64>)
    ensures
        op matches OpCode::Push(v) ==> step(op, stack) == Machine::Running(stack.push(v)),
        op is Negate ==> if stack.len() == 0 {
            step(op, stack) is Fault
        } else if stack.last() == i64::MIN {
            step(op, stack) is Fault
        } else {
            step(op, stack) matches Machine::Running(after) && after.len() == stack.len()
                && after.drop_last() == stack.drop_last() && after.last() + stack.last() == 0
        },
        !(op is Push) && !(op is Negate) ==> if stack.len() < 2 {
            step(op, stack) is Fault
        } else {
            let n = stack.len() as int;
            let a = stack[n - 2];
            let b = stack[n - 1];
            let exact = match op {
                OpCode::Add => a + b,
                OpCode::Subtract => a - b,
                OpCode::Multiply => a * b,
                _ => 0,
            };
            let below = stack.take(n - 2);
            match op {
                OpCode::Divide => if b == 0 {
                    step(op, stack) == Machine::Failed(RuntimeError::DivisionByZero)
                } else if a == i64::MIN && b == -1 {
                    step(op, stack) is Fault
                } else {
                    step(op, stack) matches Machine::Running(after) && after.len() == n - 1
                        && after.drop_last() == below && abs(a - after.last() * b) < abs(b as int)
                        && (a - after.last() * b == 0 || (a - after.last() * b < 0) == (a < 0))
                },
                _ => if i64::MIN <= exact <= i64::MAX {
                    step(op, stack) matches Machine::Running(after) && after.len() == n - 1
                        && after.drop_last() == below && after.last() == exact
                } else {
                    step(op, stack) is Fault
                },
            }
        },
{
    if op is Negate && stack.len() > 0 && stack.last() != i64::MIN {
        let v = stack.last();
        let after = stack.drop_last().push((-v) as i64);
        assert(after.drop_last() =~= stack.drop_last());
    }
    if !(op is Push) && !(op is Negate) && stack.len() >= 2 {
        let n = stack.len() as int;
        let a = stack[n - 2];
        let b = stack[n - 1];
        let bop = match op {
            OpCode::Add => BinOp::Add,
            OpCode::Subtract => BinOp::Subtract,
            OpCode::Multiply => BinOp::Multiply,
            _ => BinOp::Divide,
        };
        lemma_binary_is_arithmetic(bop, Expr::Number(a), Expr::Number(b));
        match apply_binary(bop, a, b) {
            Evaluated::Value(v) => {
                assert(stack.take(n - 2).push(v).drop_last() =~= stack.take(n - 2));
            },
            _ => {},
        }
    }
}

/// Running one piece of code and then another is running the first, and
/// then the second from where the first left the machine.
pub proof fn lemma_run_code_append(a: Seq<OpCode>, b: Seq<OpCode>, stack: Seq<i64>)
    ensures
        run_code(a + b, stack) == match run_code(a, stack) {
            Machine::Running(next) => run_code(b, next),
            other => other,
        },
    decreases a.len(),
{
    if a.len() == 0 {
        assert(a + b =~= b);
    } else {
        assert((a + b)[0] == a[0]);
        assert((a + b).drop_first() =~= a.drop_first() + b);
        match step(a[0], stack) {
            Machine::Running(next) => lemma_run_code_append(a.drop_first(), b, next),
            _ => {},
        }
    }
}

/// Running the code compiled from `e`, followed by any further code, on
/// any stack: where `e` has a value, it is as if that value had been
/// pushed; where `e` fails, the machine fails with the same error; where
/// `e` overflows, the machine faults.
pub proof fn lemma_compiled_code_computes_eval(e: Expr, rest: Seq<OpCode>, stack: Seq<i64>)
    ensures
        run_code(compile_expr(e) + rest, stack) == match eval_expr(e) {
            Evaluated::Value(v) => run_code(rest, stack.push(v)),
            Evaluated::Failed(err) => Machine::Failed(err),
            Evaluated::Overflow => Machine::Fault,
        },
    decreases e,
{
    match e {
        Expr::Number(v) => {
            let code = seq![OpCode::Push(v)] + rest;
            assert(code[0] == OpCode::Push(v));
            assert(code.drop_first() =~= rest);
        },
        Expr::Unary { op: UnOp::Negate, operand } => {
            let tail = seq![OpCode::Negate] + rest;
            assert(compile_expr(e) + rest =~= compile_expr(*operand) + tail);
            lemma_compiled_code_computes_eval(*operand, tail, stack);
            assert(tail[0] == OpCode::Negate);
            assert(tail.drop_first() =~= rest);
            match eval_expr(*operand) {
                Evaluated::Value(v) => {
                    assert(stack.push(v).drop_last() =~= stack);
                },
                _ => {},
            }
        },
        Expr::Binary { op, left, right } => {
            let tail = seq![opcode_of(op)] + rest;
            let after_left = compile_expr(*right) + tail;
            assert(compile_expr(e) + rest =~= compile_expr(*left) + after_left);
            lemma_compiled_code_computes_eval(*left, after_left, stack);
            assert(tail[0] == opcode_of(op));
            assert(tail.drop_first() =~= rest);
            match eval_expr(*left) {
                Evaluated::Value(a) => {
                    lemma_compiled_code_computes_eval(*right, tail, stack.push(a));
                    match eval_expr(*right) {
                        Evaluated::Value(b) => {
                            let st = stack.push(a).push(b);
                            assert(st.take(st.len() - 2) =~= stack);
                            assert(st[st.len() - 2] == a);
                            assert(st[st.len() - 1] == b);
                        },
                        _ => {},
                    }
                },
                _ => {},
            }
        },
    }
}

/// The bytecode of an expression, executed, gives what evaluating the
/// expression gives: the same value or the same runtime error, and it
/// faults exactly where evaluation overflows.
pub proof fn lemma_execute_compile_agrees_with_eval(e: Expr)
    ensures
        execute_code(compile_expr(e)) == match eval_expr(e) {
            Evaluated::Value(v) => Some(Ok::<i64, RuntimeError>(v)),
            Evaluated::Failed(err) => Some(Err::<i64, RuntimeError>(err)),
            Evaluated::Overflow => None,
        },
{
    lemma_compiled_code_computes_eval(e, seq![], seq![]);
    assert(compile_expr(e) + seq![] =~= compile_expr(e));
    match eval_expr(e) {
        Evaluated::Value(v) => {
            assert(run_code(seq![], seq![v]) == Machine::Running(seq![v]));
        },
        _ => {},
    }
}

/// The stack machine satisfies the same specification as the tree-walking
/// interpreter: on every program both give the same value or the same
/// error, and one overflows exactly where the other does.
pub proof fn lemma_machine_runs_like_interpreter(s: Seq<char>)
    ensures
        run_chars_on_machine(s) == run_chars(s),
{
    match lex_chars(s) {
        Lexed::Tokens(ts) => match parse_tokens(ts) {
            Ok(e) => lemma_execute_compile_agrees_with_eval(e),
            Err(_) => {},
        },
        _ => {},
    }
}

} // verus!
