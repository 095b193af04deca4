use learn_rust_with_tests::interpreter::v1::{LexError, Token as LexToken};
use learn_rust_with_tests::interpreter::v2::{BinOp, Expr, UnOp};
use learn_rust_with_tests::interpreter::v4::OpCode;
use learn_rust_with_tests::interpreter::{v1, v2, v3, v4};

const PROGRAMS: &[(&str, i64)] = &[
    ("1", 1),
    ("1 + 2", 3),
    ("1 + 2 * 3", 7),
    ("(1 + 2) * 3", 9),
    ("-5 + 3", -2),
    ("10 / 2 - 1", 4),
    ("2 * (3 + 4) - 5", 9),
    ("-(2 + 3) * -4", 20),
    ("100 - 4 * 25", 0),
];

const DIVISION_BY_ZERO: &str = "1 / (3 - 3)";

fn parse_str(source: &str) -> Result<v2::Expr, v2::ParseError> {
    v2::parse(&v2::lex(source).unwrap())
}

#[test]
fn lexes_numbers_and_operators() {
    let got = v1::lex("1 + 2 * 3").unwrap();

    assert_eq!(
        got,
        vec![
            LexToken::Number(1),
            LexToken::Plus,
            LexToken::Number(2),
            LexToken::Star,
            LexToken::Number(3),
        ]
    );
}

#[test]
fn lexes_multi_digit_numbers_and_parentheses() {
    let got = v1::lex("(42 - 7)").unwrap();

    assert_eq!(
        got,
        vec![
            LexToken::LeftParen,
            LexToken::Number(42),
            LexToken::Minus,
            LexToken::Number(7),
            LexToken::RightParen,
        ]
    );
}

#[test]
fn ignores_whitespace_including_none() {
    assert_eq!(v1::lex("1+2").unwrap(), v1::lex("  1  +  2  ").unwrap());
}

#[test]
fn rejects_an_unexpected_character() {
    let got = v1::lex("1 $ 2");

    assert_eq!(got, Err(LexError { unexpected: '$' }));
}

#[test]
fn parses_a_single_number() {
    assert_eq!(parse_str("42").unwrap(), v2::Expr::Number(42));
}

#[test]
fn multiplication_binds_tighter_than_addition() {
    let got = parse_str("1 + 2 * 3").unwrap();

    assert_eq!(
        got,
        Expr::Binary {
            op: BinOp::Add,
            left: Box::new(Expr::Number(1)),
            right: Box::new(Expr::Binary {
                op: BinOp::Multiply,
                left: Box::new(Expr::Number(2)),
                right: Box::new(Expr::Number(3)),
            }),
        }
    );
}

#[test]
fn parentheses_override_precedence() {
    let got = parse_str("(1 + 2) * 3").unwrap();

    assert_eq!(
        got,
        Expr::Binary {
            op: BinOp::Multiply,
            left: Box::new(Expr::Binary {
                op: BinOp::Add,
                left: Box::new(Expr::Number(1)),
                right: Box::new(Expr::Number(2)),
            }),
            right: Box::new(Expr::Number(3)),
        }
    );
}

#[test]
fn parses_unary_minus() {
    assert_eq!(
        parse_str("-5").unwrap(),
        Expr::Unary {
            op: UnOp::Negate,
            operand: Box::new(Expr::Number(5)),
        }
    );
}

#[test]
fn reports_a_missing_closing_parenthesis() {
    assert_eq!(parse_str("(1 + 2"), Err(v2::ParseError::ExpectedRightParen));
}

#[test]
fn reports_trailing_tokens() {
    assert_eq!(
        parse_str("1 2"),
        Err(v2::ParseError::UnexpectedToken(v2::Token::Number(2)))
    );
}

#[test]
fn evaluates_every_program_in_the_specification() {
    for &(source, want) in PROGRAMS {
        let got = v3::run(source).unwrap_or_else(|error| panic!("{source:?} failed: {error:?}"));
        assert_eq!(got, want, "for {source:?}");
    }
}

#[test]
fn division_by_zero_is_a_runtime_error() {
    assert_eq!(
        v3::run(DIVISION_BY_ZERO),
        Err(v3::InterpretError::Runtime(v3::RuntimeError::DivisionByZero))
    );
}

#[test]
fn a_syntax_error_surfaces_as_a_parse_error() {
    assert!(matches!(v3::run("(1 + 2"), Err(v3::InterpretError::Parse(_))));
}

#[test]
fn compiles_to_post_order_stack_bytecode() {
    let expr = v4::parse(&v4::lex("1 + 2 * 3").unwrap()).unwrap();

    assert_eq!(
        v4::compile(&expr),
        vec![
            OpCode::Push(1),
            OpCode::Push(2),
            OpCode::Push(3),
            OpCode::Multiply,
            OpCode::Add,
        ]
    );
}

#[test]
fn the_vm_satisfies_the_same_specification_as_the_interpreter() {
    for &(source, want) in PROGRAMS {
        let got = v4::run(source).unwrap_or_else(|error| panic!("{source:?} failed: {error:?}"));
        assert_eq!(got, want, "for {source:?}");
    }
}

#[test]
fn the_vm_reports_division_by_zero_too() {
    assert_eq!(
        v4::run(DIVISION_BY_ZERO),
        Err(v4::InterpretError::Runtime(v4::RuntimeError::DivisionByZero))
    );
}

#[test]
fn the_vm_and_the_interpreter_agree_on_errors_and_values() {
    for source in ["1 +", "2 * (3", "7 / 0", "1 $ 2", "-(-(-3))"] {
        assert_eq!(v3::run(source), v4::run(source), "for {source:?}");
    }
}

#[test]
fn executing_compiled_code_gives_what_eval_gives() {
    for &(source, want) in PROGRAMS {
        let expr = v4::parse(&v4::lex(source).unwrap()).unwrap();
        assert_eq!(v4::execute(&v4::compile(&expr)), Ok(want));
        assert_eq!(v3::eval(&expr), Ok(want));
    }
}

#[test]
fn a_lone_operator_is_an_unexpected_end() {
    assert_eq!(parse_str("1 +"), Err(v2::ParseError::UnexpectedEnd));
    assert_eq!(parse_str(")"), Err(v2::ParseError::UnexpectedToken(v2::Token::RightParen)));
}

#[test]
fn errors_describe_themselves() {
    assert_eq!(LexError { unexpected: '$' }.to_string(), "unexpected character '$'");
    assert_eq!(LexError { unexpected: '\n' }.to_string(), "unexpected character '\\n'");
    assert_eq!(
        v2::ParseError::UnexpectedToken(v2::Token::Number(-2)).to_string(),
        "unexpected token Number(-2)"
    );
    assert_eq!(
        v2::ParseError::UnexpectedToken(v2::Token::LeftParen).to_string(),
        "unexpected token LeftParen"
    );
    assert_eq!(v2::ParseError::UnexpectedEnd.to_string(), "unexpected end of input");
    assert_eq!(v2::ParseError::ExpectedRightParen.to_string(), "expected a closing parenthesis");
    assert_eq!(v3::RuntimeError::DivisionByZero.to_string(), "division by zero");
}

#[test]
fn a_lex_error_comes_before_a_parse_error() {
    assert_eq!(
        v3::run("(1 $"),
        Err(v3::InterpretError::Lex(LexError { unexpected: '$' }))
    );
    assert_eq!(v4::run("(1 $"), v3::run("(1 $"));
}

#[test]
fn a_token_after_a_whole_expression_is_reported() {
    assert_eq!(parse_str("(1 + 2) 3"), Err(v2::ParseError::UnexpectedToken(v2::Token::Number(3))));
    assert_eq!(parse_str("4 ("), Err(v2::ParseError::UnexpectedToken(v2::Token::LeftParen)));
    assert_eq!(parse_str("4 )"), Err(v2::ParseError::UnexpectedToken(v2::Token::RightParen)));
}
