//! The lexer: source text to tokens.
use vstd::prelude::*;

use crate::text::{
    char_debug, chars_of, debug_char, decimal, digit_char, digit_value, digits_value, is_digit,
    is_white_space, is_whitespace, lemma_digits_value_nonneg, lemma_digits_value_prefix,
    push_signed_decimal, signed_decimal,
};
use vstd::string::StringExecFns;

verus! {

/// A lexical token of the calculator language.
#[derive(Debug, Clone, Copy, PartialEq, Eq, Structural)]
pub enum Token {
    Number(i64),
    Plus,
    Minus,
    Star,
    Slash,
    LeftParen,
    RightParen,
}

/// The lexer met a character that starts no token.
#[derive(Debug, Clone, Copy, PartialEq, Eq, Structural)]
pub struct LexError {
    pub unexpected: char,
}

impl LexError {
    /// What went wrong, in words.
    pub fn to_string(&self) -> (r: String)
        ensures
            r@ == "unexpected character "@ + char_debug(self.unexpected),
    {
        let mut out = "unexpected character ".to_string();
        let shown = debug_char(self.unexpected);
        out.append(shown.as_str());
        out
    }
}

/// How `{:?}` writes a token: its variant's name, with the number in
/// brackets for a number.
pub open spec fn token_debug(t: Token) -> Seq<char> {
    match t {
        Token::Number(n) => "Number("@ + signed_decimal(n as int) + ")"@,
        Token::Plus => "Plus"@,
        Token::Minus => "Minus"@,
        Token::Star => "Star"@,
        Token::Slash => "Slash"@,
        Token::LeftParen => "LeftParen"@,
        Token::RightParen => "RightParen"@,
    }
}

/// Appends how `{:?}` writes `t` to `out`.
pub fn push_token_debug(out: &mut String, t: Token)
    ensures
        final(out)@ == old(out)@ + token_debug(t),
{
    match t {
        Token::Number(n) => {
            out.append("Number(");
            push_signed_decimal(out, n);
            out.append(")");
            assert(final(out)@ =~= old(out)@ + token_debug(t));
        },
        Token::Plus => out.append("Plus"),
        Token::Minus => out.append("Minus"),
        Token::Star => out.append("Star"),
        Token::Slash => out.append("Slash"),
        Token::LeftParen => out.append("LeftParen"),
        Token::RightParen => out.append("RightParen"),
    }
}

/// What lexing a character sequence comes to: the tokens, the first
/// character that starts no token, or a number too large for `i64`.
pub enum Lexed {
    Tokens(Seq<Token>),
    Unexpected(char),
    Overflow,
}

/// The token that a single operator or parenthesis character stands for.
pub open spec fn symbol_token(c: char) -> Option<Token> {
    if c == '+' {
        Some(Token::Plus)
    } else if c == '-' {
        Some(Token::Minus)
    } else if c == '*' {
        Some(Token::Star)
    } else if c == '/' {
        Some(Token::Slash)
    } else if c == '(' {
        Some(Token::LeftParen)
    } else if c == ')' {
        Some(Token::RightParen)
    } else {
        None
    }
}

/// The number of decimal digits at the start of `s`.
pub open spec fn digit_run(s: Seq<char>) -> nat
    decreases s.len(),
{
    if s.len() > 0 && is_digit(s[0]) {
        1 + digit_run(s.drop_first())
    } else {
        0
    }
}

/// `prefix` followed by whatever `rest` came to; an error in `rest` stays.
pub open spec fn after(prefix: Seq<Token>, rest: Lexed) -> Lexed {
    match rest {
        Lexed::Tokens(ts) => Lexed::Tokens(prefix + ts),
        other => other,
    }
}

/// The lexical structure of `s`: whitespace separates, each operator or
/// parenthesis is a token, a maximal run of digits is a number, and any
/// other character is an error.
pub open spec fn lex_chars(s: Seq<char>) -> Lexed
    decreases s.len(),
{
    if s.len() == 0 {
        Lexed::Tokens(seq![])
    } else {
        let c = s[0];
        if is_white_space(c) {
            lex_chars(s.drop_first())
        } else if symbol_token(c) is Some {
            after(seq![symbol_token(c)->0], lex_chars(s.drop_first()))
        } else if is_digit(c) {
            let n = digit_run(s);
            proof {
                lemma_digit_run_bounds(s);
            }
            let v = digits_value(s.take(n as int));
            if v > i64::MAX {
                Lexed::Overflow
            } else {
                after(seq![Token::Number(v as i64)], lex_chars(s.skip(n as int)))
            }
        } else {
            Lexed::Unexpected(c)
        }
    }
}

pub proof fn lemma_digit_run_bounds(s: Seq<char>)
    ensures
        digit_run(s) <= s.len(),
        s.len() > 0 && is_digit(s[0]) ==> digit_run(s) >= 1,
        forall|k: int| 0 <= k < digit_run(s) ==> is_digit(#[trigger] s[k]),
        digit_run(s) < s.len() ==> !is_digit(s[digit_run(s) as int]),
    decreases s.len(),
{
    if s.len() > 0 && is_digit(s[0]) {
        lemma_digit_run_bounds(s.drop_first());
        assert forall|k: int| 0 <= k < digit_run(s) implies is_digit(#[trigger] s[k]) by {
            if k > 0 {
                assert(s[k] == s.drop_first()[k - 1]);
            }
        }
    }
}

proof fn lemma_after_after(a: Seq<Token>, b: Seq<Token>, rest: Lexed)
    ensures
        after(a, after(b, rest)) == after(a + b, rest),
{
    match rest {
        Lexed::Tokens(ts) => {
            assert(a + (b + ts) =~= (a + b) + ts);
        },
        _ => {},
    }
}

/// White space before the text changes nothing: it only separates tokens.
pub proof fn lemma_white_space_skipped(w: Seq<char>, s: Seq<char>)
    requires
        forall|j: int| 0 <= j < w.len() ==> is_white_space(#[trigger] w[j]),
    ensures
        lex_chars(w + s) == lex_chars(s),
    decreases w.len(),
{
    if w.len() == 0 {
        assert(w + s =~= s);
    } else {
        assert((w + s)[0] == w[0]);
        assert((w + s).drop_first() =~= w.drop_first() + s);
        assert forall|j: int| 0 <= j < w.drop_first().len() implies is_white_space(
            #[trigger] w.drop_first()[j],
        ) by {
            assert(w.drop_first()[j] == w[j + 1]);
        }
        lemma_white_space_skipped(w.drop_first(), s);
    }
}

/// Each operator and parenthesis is a token of its own, whatever follows:
/// `+`, `-`, `*`, `/`, `(` and `)` give `Plus`, `Minus`, `Star`, `Slash`,
/// `LeftParen` and `RightParen` in front of the tokens of the rest, and
/// any other character that is no digit and no white space is reported as
/// unexpected.
pub proof fn lemma_symbol_is_one_token(c: char, s: Seq<char>)
    requires
        !is_digit(c),
        !is_white_space(c),
    ensures
        lex_chars(seq![c] + s) == if c == '+' {
            after(seq![Token::Plus], lex_chars(s))
        } else if c == '-' {
            after(seq![Token::Minus], lex_chars(s))
        } else if c == '*' {
            after(seq![Token::Star], lex_chars(s))
        } else if c == '/' {
            after(seq![Token::Slash], lex_chars(s))
        } else if c == '(' {
            after(seq![Token::LeftParen], lex_chars(s))
        } else if c == ')' {
            after(seq![Token::RightParen], lex_chars(s))
        } else {
            Lexed::Unexpected(c)
        },
{
    assert((seq![c] + s)[0] == c);
    assert((seq![c] + s).drop_first() =~= s);
}

/// The numeral of a number is all digits, and is worth that number.
pub proof fn lemma_decimal_is_digits(n: nat)
    ensures
        decimal(n).len() >= 1,
        forall|k: int| 0 <= k < decimal(n).len() ==> is_digit(#[trigger] decimal(n)[k]),
        digits_value(decimal(n)) == n,
    decreases n,
{
    if n < 10 {
        let c = digit_char(n as int);
        assert(c as int == n + 48);
        assert('0' as int == 48);
        assert(digit_value(c) == n);
        assert(seq![c].drop_last() =~= Seq::<char>::empty());
        assert(digits_value(seq![c]) == digits_value(Seq::<char>::empty()) * 10 + digit_value(c));
    } else {
        lemma_decimal_is_digits(n / 10);
        let c = digit_char((n % 10) as int);
        assert(c as int == n % 10 + 48);
        let d = decimal(n / 10);
        assert(decimal(n) == d.push(c));
        assert(d.push(c).drop_last() =~= d);
        assert('0' as int == 48);
        assert(digit_value(c) == n % 10);
        assert(digits_value(d.push(c)) == digits_value(d) * 10 + digit_value(c));
        assert(n == (n / 10) * 10 + n % 10);
        assert forall|k: int| 0 <= k < decimal(n).len() implies is_digit(
            #[trigger] decimal(n)[k],
        ) by {
            if k < d.len() {
                assert(decimal(n)[k] == d[k]);
            }
        }
    }
}

/// A run of digits followed by something that is no digit runs as far as
/// the digits go.
proof fn lemma_digit_run_of(d: Seq<char>, s: Seq<char>)
    requires
        forall|k: int| 0 <= k < d.len() ==> is_digit(#[trigger] d[k]),
        s.len() == 0 || !is_digit(s[0]),
    ensures
        digit_run(d + s) == d.len(),
    decreases d.len(),
{
    if d.len() == 0 {
        assert(d + s =~= s);
    } else {
        assert((d + s)[0] == d[0]);
        assert((d + s).drop_first() =~= d.drop_first() + s);
        assert forall|k: int| 0 <= k < d.drop_first().len() implies is_digit(
            #[trigger] d.drop_first()[k],
        ) by {
            assert(d.drop_first()[k] == d[k + 1]);
        }
        lemma_digit_run_of(d.drop_first(), s);
    }
}

/// A number written in decimal is one `Number` token of that value, in
/// front of the tokens of what follows, where what follows does not start
/// with another digit.
pub proof fn lemma_numeral_is_its_number(n: i64, s: Seq<char>)
    requires
        n >= 0,
        s.len() == 0 || !is_digit(s[0]),
    ensures
        lex_chars(decimal(n as nat) + s) == after(seq![Token::Number(n)], lex_chars(s)),
{
    let d = decimal(n as nat);
    lemma_decimal_is_digits(n as nat);
    lemma_digit_run_of(d, s);
    let t = d + s;
    assert(t[0] == d[0]);
    assert(is_digit(d[0]));
    assert(t.take(d.len() as int) =~= d);
    assert(t.skip(d.len() as int) =~= s);
}

/// Appends `token` to `tokens`.
fn push(tokens: &mut Vec<Token>, token: Token)
    ensures
        final(tokens)@ == old(tokens)@.push(token),
{
    tokens.push(token);
}

/// The value of the digit character `c`.
fn digit(c: char) -> (d: i64)
    requires
        is_digit(c),
    ensures
        d == digit_value(c),
        0 <= d <= 9,
{
    let u = c as u32;
    (u - 48) as i64
}

/// Splits `source` into tokens, or reports the first character that starts
/// no token.
pub fn lex(source: &str) -> (r: Result<Vec<Token>, LexError>)
    requires
        !(lex_chars(source@) is Overflow),
    ensures
        r matches Ok(ts) ==> lex_chars(source@) == Lexed::Tokens(ts@),
        r matches Err(e) ==> lex_chars(source@) == Lexed::Unexpected(e.unexpected),
{
    let chars = chars_of(source);
    let ghost s = source@;
    let n = chars.len();
    let mut tokens: Vec<Token> = Vec::new();
    let mut i: usize = 0;
    assert(s.skip(0) =~= s);
    assert(after(seq![], lex_chars(s)) == lex_chars(s)) by {
        match lex_chars(s) {
            Lexed::Tokens(ts) => {
                assert(seq![] + ts =~= ts);
            },
            _ => {},
        }
    }
    while i < n
        invariant
            s == source@,
            chars@ == s,
            n == s.len(),
            i <= n,
            !(lex_chars(s) is Overflow),
            lex_chars(s) == after(tokens@, lex_chars(s.skip(i as int))),
        decreases n - i,
    {
        let c = chars[i];
        let ghost rest = s.skip(i as int);
        assert(rest[0] == c);
        assert(rest.drop_first() =~= s.skip(i + 1));
        if is_whitespace(c) {
            i = i + 1;
        } else if c == '+' || c == '-' || c == '*' || c == '/' || c == '(' || c == ')' {
            let token = if c == '+' {
                Token::Plus
            } else if c == '-' {
                Token::Minus
            } else if c == '*' {
                Token::Star
            } else if c == '/' {
                Token::Slash
            } else if c == '(' {
                Token::LeftParen
            } else {
                Token::RightParen
            };
            proof {
                lemma_after_after(tokens@, seq![token], lex_chars(s.skip(i + 1)));
                assert(tokens@ + seq![token] =~= tokens@.push(token));
            }
            push(&mut tokens, token);
            i = i + 1;
        } else if '0' <= c && c <= '9' {
            let ghost run = digit_run(rest);
            proof {
                lemma_digit_run_bounds(rest);
                if digits_value(rest.take(run as int)) > i64::MAX {
                    assert(lex_chars(rest) is Overflow);
                }
            }
            let mut value: i64 = 0;
            let mut j: usize = i;
            assert(s.subrange(i as int, i as int) =~= Seq::<char>::empty());
            while j < n && '0' <= chars[j] && chars[j] <= '9'
                invariant
                    chars@ == s,
                    n == s.len(),
                    i < j || i == j,
                    j <= i + run,
                    i + run <= n,
                    rest == s.skip(i as int),
                    run == digit_run(rest),
                    forall|k: int| 0 <= k < run ==> is_digit(#[trigger] rest[k]),
                    run < rest.len() ==> !is_digit(rest[run as int]),
                    digits_value(rest.take(run as int)) <= i64::MAX,
                    value == digits_value(s.subrange(i as int, j as int)),
                decreases n - j,
            {
                proof {
                    assert(rest[j - i] == s[j as int]);
                    if j - i >= run {
                        assert(j - i == run);
                    }
                    let p = rest.take(run as int);
                    assert forall|k: int| 0 <= k < p.len() implies is_digit(#[trigger] p[k]) by {
                        assert(p[k] == rest[k]);
                    }
                    lemma_digits_value_prefix(p, j - i + 1);
                    assert(p.take(j - i + 1) =~= s.subrange(i as int, j + 1));
                    assert(s.subrange(i as int, j + 1).drop_last() =~= s.subrange(
                        i as int,
                        j as int,
                    ));
                    lemma_digits_value_nonneg(s.subrange(i as int, j as int));
                }
                value = value * 10 + digit(chars[j]);
                j = j + 1;
            }
            proof {
                if j - i < run {
                    assert(rest[j - i] == s[j as int]);
                }
                assert(j - i == run);
                assert(s.subrange(i as int, j as int) =~= rest.take(run as int));
                assert(rest.skip(run as int) =~= s.skip(j as int));
                lemma_after_after(
                    tokens@,
                    seq![Token::Number(value)],
                    lex_chars(s.skip(j as int)),
                );
                assert(tokens@ + seq![Token::Number(value)] =~= tokens@.push(
                    Token::Number(value),
                ));
            }
            push(&mut tokens, Token::Number(value));
            i = j;
        } else {
            assert(symbol_token(c) is None);
            assert(lex_chars(rest) == Lexed::Unexpected(c));
            assert(lex_chars(s) == Lexed::Unexpected(c));
            return Err(LexError { unexpected: c });
        }
    }
    proof {
        assert(s.skip(i as int) =~= Seq::<char>::empty());
        assert(tokens@ + seq![] =~= tokens@);
    }
    Ok(tokens)
}

} // verus!
