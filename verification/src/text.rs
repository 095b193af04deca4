//! Character-level helpers shared by the chapters that read text.
use vstd::prelude::*;

use vstd::string::{StrSliceExecFns, StringExecFns, StringSliceAdditionalSpecFns};
use vstd::utf8::{decode_utf8, encode_utf8};

verus! {

/// Unicode `White_Space`: the characters that `char::is_whitespace` accepts.
pub open spec fn is_white_space(c: char) -> bool {
    let u = c as u32;
    ||| 0x09 <= u <= 0x0D
    ||| u == 0x20
    ||| u == 0x85
    ||| u == 0xA0
    ||| u == 0x1680
    ||| 0x2000 <= u <= 0x200A
    ||| u == 0x2028
    ||| u == 0x2029
    ||| u == 0x202F
    ||| u == 0x205F
    ||| u == 0x3000
}

/// Whether `c` has the Unicode `White_Space` property.
pub fn is_whitespace(c: char) -> (r: bool)
    ensures
        r == is_white_space(c),
{
    let u = c as u32;
    (0x09 <= u && u <= 0x0D) || u == 0x20 || u == 0x85 || u == 0xA0 || u == 0x1680 || (0x2000
        <= u && u <= 0x200A) || u == 0x2028 || u == 0x2029 || u == 0x202F || u == 0x205F || u
        == 0x3000
}

/// The characters of `s`, in order.
pub fn chars_of(s: &str) -> (v: Vec<char>)
    ensures
        v@ == s@,
{
    let mut v: Vec<char> = Vec::new();
    for c in it: s.chars()
        invariant
            v@ == it.seq().take(it.index() as int),
    {
        v.push(c);
    }
    assert(v@ =~= s@);
    v
}

/// Whether `a` and `b` hold the same text, compared byte by byte.
pub fn str_eq(a: &str, b: &str) -> (r: bool)
    ensures
        r == (a@ == b@),
{
    let x = a.as_bytes();
    let y = b.as_bytes();
    proof {
        broadcast use vstd::utf8::encode_utf8_decode_utf8;

        assert(decode_utf8(encode_utf8(a@)) == a@);
        assert(decode_utf8(encode_utf8(b@)) == b@);
    }
    if x.len() != y.len() {
        return false;
    }
    let mut i: usize = 0;
    while i < x.len()
        invariant
            x@ == a.spec_bytes(),
            y@ == b.spec_bytes(),
            x@.len() == y@.len(),
            i <= x@.len(),
            forall|j: int| 0 <= j < i ==> x@[j] == y@[j],
        decreases x@.len() - i,
    {
        if x[i] != y[i] {
            return false;
        }
        i = i + 1;
    }
    assert(x@ =~= y@);
    true
}

/// `s` written `n` times over.
pub open spec fn repeated(s: Seq<char>, n: nat) -> Seq<char>
    decreases n,
{
    if n == 0 {
        Seq::empty()
    } else {
        repeated(s, (n - 1) as nat) + s
    }
}

/// Repetition is concatenation of copies: no copies is nothing, one copy
/// is `s` itself, and `m + n` copies are `m` copies followed by `n`.
pub proof fn lemma_repeated_concatenates(s: Seq<char>, m: nat, n: nat)
    ensures
        repeated(s, 0) == Seq::<char>::empty(),
        repeated(s, 1) == s,
        repeated(s, m + n) == repeated(s, m) + repeated(s, n),
    decreases n,
{
    assert(repeated(s, 1) == repeated(s, 0) + s);
    assert(Seq::<char>::empty() + s =~= s);
    if n == 0 {
        assert(repeated(s, m) + Seq::<char>::empty() =~= repeated(s, m));
    } else {
        lemma_repeated_concatenates(s, m, (n - 1) as nat);
        assert(repeated(s, m + n) == repeated(s, (m + n - 1) as nat) + s);
        assert(repeated(s, m) + (repeated(s, (n - 1) as nat) + s) =~= (repeated(s, m)
            + repeated(s, (n - 1) as nat)) + s);
    }
}

/// The number of bytes that `s` takes in UTF-8.
pub open spec fn byte_len(s: Seq<char>) -> nat {
    encode_utf8(s).len()
}

/// `str::repeat`: a new string that holds `s` `n` times over. It panics only
/// where the result would not fit in memory, which `requires` leaves out.
#[verifier::external_body]
pub(crate) fn repeat_str(s: &str, n: usize) -> (r: String)
    requires
        byte_len(s@) * n <= isize::MAX,
    ensures
        r@ == repeated(s@, n as nat),
{
    s.repeat(n)
}

/// The upper-case form of `s` under Unicode's full case mapping, as
/// `str::to_uppercase` computes it.
pub uninterp spec fn upper_case(s: Seq<char>) -> Seq<char>;

/// `str::to_uppercase`. Its result is a fixed function of the text (the
/// Unicode case tables that std carries), so it is named, not written out.
#[verifier::external_body]
pub(crate) fn to_uppercase(s: &str) -> (r: String)
    ensures
        r@ == upper_case(s@),
{
    s.to_uppercase()
}

/// The character for the decimal digit `d`.
pub open spec fn digit_char(d: int) -> char {
    (d + 48) as char
}

/// The decimal numeral of `n`, without leading zeros.
pub open spec fn decimal(n: nat) -> Seq<char>
    decreases n,
{
    if n < 10 {
        seq![digit_char(n as int)]
    } else {
        decimal(n / 10).push(digit_char((n % 10) as int))
    }
}

fn digit_str(d: u64) -> (r: &'static str)
    requires
        d < 10,
    ensures
        r@ == seq![digit_char(d as int)],
{
    proof {
        reveal_strlit("0");
        reveal_strlit("1");
        reveal_strlit("2");
        reveal_strlit("3");
        reveal_strlit("4");
        reveal_strlit("5");
        reveal_strlit("6");
        reveal_strlit("7");
        reveal_strlit("8");
        reveal_strlit("9");
    }
    match d {
        0 => "0",
        1 => "1",
        2 => "2",
        3 => "3",
        4 => "4",
        5 => "5",
        6 => "6",
        7 => "7",
        8 => "8",
        _ => "9",
    }
}

/// Appends the decimal numeral of `n` to `out`.
pub fn push_decimal(out: &mut String, n: u64)
    ensures
        final(out)@ == old(out)@ + decimal(n as nat),
    decreases n,
{
    if n >= 10 {
        push_decimal(out, n / 10);
    }
    out.append(digit_str(n % 10));
}

/// The decimal numeral of `n`, with a leading minus sign when it is negative.
pub open spec fn signed_decimal(n: int) -> Seq<char> {
    if n < 0 {
        seq!['-'] + decimal((-n) as nat)
    } else {
        decimal(n as nat)
    }
}

/// Appends the decimal numeral of `n` to `out`.
pub fn push_signed_decimal(out: &mut String, n: i64)
    ensures
        final(out)@ == old(out)@ + signed_decimal(n as int),
{
    if n < 0 {
        proof {
            reveal_strlit("-");
        }
        out.append("-");
        let magnitude: u64 = (0i128 - (n as i128)) as u64;
        push_decimal(out, magnitude);
        assert(final(out)@ =~= old(out)@ + signed_decimal(n as int));
    } else {
        push_decimal(out, n as u64);
    }
}

/// `s` without its leading white space.
pub open spec fn trim_start(s: Seq<char>) -> Seq<char>
    decreases s.len(),
{
    if s.len() > 0 && is_white_space(s[0]) {
        trim_start(s.drop_first())
    } else {
        s
    }
}

/// `s` without its trailing white space.
pub open spec fn trim_end(s: Seq<char>) -> Seq<char>
    decreases s.len(),
{
    if s.len() > 0 && is_white_space(s.last()) {
        trim_end(s.drop_last())
    } else {
        s
    }
}

/// `s` without white space at either end.
pub open spec fn trimmed(s: Seq<char>) -> Seq<char> {
    trim_end(trim_start(s))
}

/// `s` without `suffix`, where `s` ends with it.
pub open spec fn without_suffix(s: Seq<char>, suffix: Seq<char>) -> Option<Seq<char>> {
    if suffix.len() <= s.len() && s.subrange(s.len() - suffix.len(), s.len() as int) == suffix {
        Some(s.subrange(0, s.len() - suffix.len()))
    } else {
        None
    }
}

/// Skipping leading white space by hand leaves what `trim_start` leaves.
pub proof fn lemma_trim_start_skip(s: Seq<char>, i: int)
    requires
        0 <= i <= s.len(),
        forall|j: int| 0 <= j < i ==> is_white_space(#[trigger] s[j]),
    ensures
        trim_start(s) == trim_start(s.skip(i)),
    decreases i,
{
    if i > 0 {
        lemma_trim_start_skip(s, i - 1);
        assert(s.skip(i - 1).drop_first() =~= s.skip(i));
    } else {
        assert(s.skip(0) =~= s);
    }
}

/// Dropping trailing white space by hand leaves what `trim_end` leaves.
pub proof fn lemma_trim_end_take(s: Seq<char>, k: int)
    requires
        0 <= k <= s.len(),
        forall|j: int| k <= j < s.len() ==> is_white_space(#[trigger] s[j]),
    ensures
        trim_end(s) == trim_end(s.take(k)),
    decreases s.len() - k,
{
    if k < s.len() {
        lemma_trim_end_take(s, k + 1);
        assert(s.take(k + 1).drop_last() =~= s.take(k));
    } else {
        assert(s.take(k) =~= s);
    }
}

/// `text` without white space at either end.
pub fn trim(text: &str) -> (r: &str)
    ensures
        r@ == trimmed(text@),
{
    let n = text.unicode_len();
    let mut start: usize = 0;
    while start < n && is_whitespace(text.get_char(start))
        invariant
            n == text@.len(),
            start <= n,
            forall|j: int| 0 <= j < start ==> is_white_space(#[trigger] text@[j]),
        decreases n - start,
    {
        start = start + 1;
    }
    proof {
        lemma_trim_start_skip(text@, start as int);
    }
    let ghost rest = text@.skip(start as int);
    let mut end: usize = n;
    while end > start && is_whitespace(text.get_char(end - 1))
        invariant
            n == text@.len(),
            start <= end <= n,
            rest == text@.skip(start as int),
            forall|j: int| end - start <= j < rest.len() ==> is_white_space(#[trigger] rest[j]),
        decreases end,
    {
        assert(rest[end - 1 - start] == text@[end - 1]);
        end = end - 1;
    }
    proof {
        if start == n {
            assert(rest.len() == 0);
        } else {
            assert(!is_white_space(rest[0]));
        }
        lemma_trim_end_take(rest, end - start);
        assert(rest.take(end - start) =~= text@.subrange(start as int, end as int));
    }
    text.substring_char(start, end)
}

/// `text` without `suffix`, where `text` ends with it.
pub fn strip_suffix<'a>(text: &'a str, suffix: &str) -> (r: Option<&'a str>)
    ensures
        r matches Some(t) ==> without_suffix(text@, suffix@) == Some(t@),
        r is None ==> without_suffix(text@, suffix@) is None,
{
    let n = text.unicode_len();
    let m = suffix.unicode_len();
    if m > n {
        return None;
    }
    let tail = text.substring_char(n - m, n);
    if str_eq(tail, suffix) {
        Some(text.substring_char(0, n - m))
    } else {
        None
    }
}

/// The UTF-8 bytes of two texts written one after the other are those of
/// the first, then those of the second.
pub proof fn lemma_encode_utf8_concat(a: Seq<char>, b: Seq<char>)
    ensures
        encode_utf8(a + b) == encode_utf8(a) + encode_utf8(b),
    decreases a.len(),
{
    if a.len() == 0 {
        assert(a + b =~= b);
        assert(encode_utf8(a) =~= Seq::<u8>::empty());
        assert(encode_utf8(a) + encode_utf8(b) =~= encode_utf8(b));
    } else {
        lemma_encode_utf8_concat(a.drop_first(), b);
        assert((a + b).drop_first() =~= a.drop_first() + b);
        assert((a + b)[0] == a[0]);
        assert(encode_utf8(a + b) =~= encode_utf8(a) + encode_utf8(b));
    }
}

/// How many characters at the front of `s` are not white space.
pub open spec fn word_len(s: Seq<char>) -> nat
    decreases s.len(),
{
    if s.len() == 0 || is_white_space(s[0]) {
        0
    } else {
        1 + word_len(s.drop_first())
    }
}

/// The second of the white-space-separated words of `s`, if it has two.
pub open spec fn second_word(s: Seq<char>) -> Option<Seq<char>> {
    let t1 = trim_start(s);
    let t2 = trim_start(t1.skip(word_len(t1) as int));
    if t2.len() == 0 {
        None
    } else {
        Some(t2.take(word_len(t2) as int))
    }
}

/// Whether `c` is an ASCII decimal digit.
pub open spec fn is_digit(c: char) -> bool {
    '0' <= c <= '9'
}

/// The value of the decimal digit `c`.
pub open spec fn digit_value(c: char) -> int {
    c as int - '0' as int
}

/// The value of a sequence of decimal digits, most significant first.
pub open spec fn digits_value(s: Seq<char>) -> int
    decreases s.len(),
{
    if s.len() == 0 {
        0
    } else {
        digits_value(s.drop_last()) * 10 + digit_value(s.last())
    }
}

/// Whether every character of `d` is a decimal digit.
pub open spec fn all_digits(d: Seq<char>) -> bool {
    forall|i: int| 0 <= i < d.len() ==> is_digit(#[trigger] d[i])
}

/// `s` without a leading `+`, where it has one.
pub open spec fn unsigned_part(s: Seq<char>) -> Seq<char> {
    if s.len() > 0 && s[0] == '+' {
        s.drop_first()
    } else {
        s
    }
}

/// What `str::parse::<u16>` makes of `s`: an optional `+`, then one or more
/// decimal digits whose value fits in a `u16`.
pub open spec fn parsed_u16(s: Seq<char>) -> Option<u16> {
    let d = unsigned_part(s);
    if d.len() > 0 && all_digits(d) && digits_value(d) <= u16::MAX {
        Some(digits_value(d) as u16)
    } else {
        None
    }
}

/// The word that starts at `a` runs to `b`.
pub proof fn lemma_word_len_from(s: Seq<char>, a: int, b: int)
    requires
        0 <= a <= b <= s.len(),
        forall|j: int| a <= j < b ==> !is_white_space(#[trigger] s[j]),
        b == s.len() || is_white_space(s[b]),
    ensures
        word_len(s.skip(a)) == b - a,
    decreases b - a,
{
    if a < b {
        lemma_word_len_from(s, a + 1, b);
        assert(s.skip(a).drop_first() =~= s.skip(a + 1));
    } else if b < s.len() {
        assert(s.skip(a)[0] == s[b]);
    }
}

/// Reads the digits `cs[a..b]` as `str::parse::<u16>` would read the same
/// text.
pub fn parse_u16_at(cs: &Vec<char>, a: usize, b: usize) -> (r: Option<u16>)
    requires
        a <= b <= cs@.len(),
    ensures
        r == parsed_u16(cs@.subrange(a as int, b as int)),
{
    let ghost s = cs@.subrange(a as int, b as int);
    let mut start = a;
    if start < b && cs[start] == '+' {
        start = start + 1;
    }
    let ghost d = cs@.subrange(start as int, b as int);
    assert(d =~= unsigned_part(s));
    if start == b {
        return None;
    }
    let mut value: u32 = 0;
    let mut i = start;
    while i < b
        invariant
            a <= start < b <= cs@.len(),
            start <= i <= b,
            d == cs@.subrange(start as int, b as int),
            s == cs@.subrange(a as int, b as int),
            d == unsigned_part(s),
            forall|j: int| start <= j < i ==> is_digit(#[trigger] cs@[j]),
            value == digits_value(cs@.subrange(start as int, i as int)),
            value <= u16::MAX,
        decreases b - i,
    {
        let c = cs[i];
        if !('0' <= c && c <= '9') {
            proof {
                assert(d[i - start] == c);
                assert(!is_digit(d[i - start]));
            }
            return None;
        }
        let ghost before = cs@.subrange(start as int, i as int);
        assert(cs@.subrange(start as int, i + 1).drop_last() =~= before);
        let next: u32 = value * 10 + ((c as u32) - 48);
        if next > 65535 {
            proof {
                assert(d.take(i + 1 - start) =~= cs@.subrange(start as int, i + 1));
                if all_digits(d) {
                    lemma_digits_value_prefix(d, i + 1 - start);
                }
            }
            return None;
        }
        value = next;
        i = i + 1;
    }
    assert(cs@.subrange(start as int, b as int) =~= d);
    Some(value as u16)
}

/// Digits are never worth less than nothing.
pub proof fn lemma_digits_value_nonneg(s: Seq<char>)
    requires
        forall|k: int| 0 <= k < s.len() ==> is_digit(#[trigger] s[k]),
    ensures
        digits_value(s) >= 0,
    decreases s.len(),
{
    if s.len() > 0 {
        lemma_digits_value_nonneg(s.drop_last());
    }
}

/// A prefix of a digit sequence is worth no more than the whole sequence.
pub proof fn lemma_digits_value_prefix(s: Seq<char>, k: int)
    requires
        0 <= k <= s.len(),
        forall|j: int| 0 <= j < s.len() ==> is_digit(#[trigger] s[j]),
    ensures
        digits_value(s.take(k)) <= digits_value(s),
    decreases s.len() - k,
{
    if k < s.len() {
        lemma_digits_value_prefix(s, k + 1);
        let t = s.take(k + 1);
        assert(t.drop_last() =~= s.take(k));
        lemma_digits_value_nonneg(s.take(k));
    } else {
        assert(s.take(k) =~= s);
    }
}

/// Text that starts with no white space has none to trim.
proof fn lemma_trim_start_stops(s: Seq<char>)
    requires
        s.len() == 0 || !is_white_space(s[0]),
    ensures
        trim_start(s) == s,
{
}

/// Where the second white-space-separated word of `cs` stands, if it has
/// two.
pub fn second_word_bounds(cs: &Vec<char>) -> (r: Option<(usize, usize)>)
    ensures
        match r {
            Some((a, b)) => a <= b <= cs@.len() && second_word(cs@) == Some(
                cs@.subrange(a as int, b as int),
            ),
            None => second_word(cs@) is None,
        },
{
    let n = cs.len();
    let mut p1: usize = 0;
    while p1 < n && is_whitespace(cs[p1])
        invariant
            n == cs@.len(),
            p1 <= n,
            forall|j: int| 0 <= j < p1 ==> is_white_space(#[trigger] cs@[j]),
        decreases n - p1,
    {
        p1 = p1 + 1;
    }
    let mut q1: usize = p1;
    while q1 < n && !is_whitespace(cs[q1])
        invariant
            n == cs@.len(),
            p1 <= q1 <= n,
            forall|j: int| p1 <= j < q1 ==> !is_white_space(#[trigger] cs@[j]),
        decreases n - q1,
    {
        q1 = q1 + 1;
    }
    let mut p2: usize = q1;
    while p2 < n && is_whitespace(cs[p2])
        invariant
            n == cs@.len(),
            q1 <= p2 <= n,
            forall|j: int| q1 <= j < p2 ==> is_white_space(#[trigger] cs@[j]),
        decreases n - p2,
    {
        p2 = p2 + 1;
    }
    let mut q2: usize = p2;
    while q2 < n && !is_whitespace(cs[q2])
        invariant
            n == cs@.len(),
            p2 <= q2 <= n,
            forall|j: int| p2 <= j < q2 ==> !is_white_space(#[trigger] cs@[j]),
        decreases n - q2,
    {
        q2 = q2 + 1;
    }
    proof {
        let s = cs@;
        lemma_trim_start_skip(s, p1 as int);
        lemma_trim_start_stops(s.skip(p1 as int));
        let t1 = s.skip(p1 as int);
        lemma_word_len_from(s, p1 as int, q1 as int);
        assert(t1.skip(word_len(t1) as int) =~= s.skip(q1 as int));
        let u = s.skip(q1 as int);
        assert forall|j: int| 0 <= j < p2 - q1 implies is_white_space(#[trigger] u[j]) by {
            assert(u[j] == s[q1 + j]);
        }
        lemma_trim_start_skip(u, p2 - q1);
        assert(u.skip(p2 - q1) =~= s.skip(p2 as int));
        lemma_trim_start_stops(s.skip(p2 as int));
        let t2 = s.skip(p2 as int);
        lemma_word_len_from(s, p2 as int, q2 as int);
        assert(t2.take(q2 - p2) =~= s.subrange(p2 as int, q2 as int));
    }
    if p2 == n {
        None
    } else {
        Some((p2, q2))
    }
}

/// Whether the blank line `\r\n\r\n` starts at `i` in `s`.
pub open spec fn blank_line_at(s: Seq<char>, i: int) -> bool {
    0 <= i && i + 4 <= s.len() && s[i] == '\r' && s[i + 1] == '\n' && s[i + 2] == '\r' && s[i
        + 3] == '\n'
}

/// What follows the first blank line `\r\n\r\n` of `s`, or nothing where it
/// has none.
pub open spec fn after_blank_line(s: Seq<char>) -> Seq<char> {
    if exists|i: int| blank_line_at(s, i) {
        s.skip(
            (choose|i: int| blank_line_at(s, i) && forall|j: int| 0 <= j < i ==> !blank_line_at(s, j))
                + 4,
        )
    } else {
        Seq::empty()
    }
}

/// What follows the first blank line `\r\n\r\n` of `text`, or nothing
/// where it has none.
pub fn body_after_blank_line(text: &str) -> (r: String)
    ensures
        r@ == after_blank_line(text@),
{
    let cs = chars_of(text);
    let n = cs.len();
    let mut i: usize = 0;
    while n >= 4 && i <= n - 4
        invariant
            i <= n,
            n == cs@.len(),
            cs@ == text@,
            forall|j: int| 0 <= j < i ==> !blank_line_at(text@, j),
        decreases n - i,
    {
        if cs[i] == '\r' && cs[i + 1] == '\n' && cs[i + 2] == '\r' && cs[i + 3] == '\n' {
            proof {
                let k = choose|k: int|
                    blank_line_at(text@, k) && forall|j: int| 0 <= j < k ==> !blank_line_at(text@, j);
                assert(blank_line_at(text@, i as int));
                if k < i {
                } else if k > i {
                    assert(!blank_line_at(text@, i as int));
                }
            }
            return text.substring_char(i + 4, n).to_string();
        }
        i = i + 1;
    }
    proof {
        assert forall|j: int| !blank_line_at(text@, j) by {
            if 0 <= j < i {
            }
        }
    }
    assert(after_blank_line(text@) =~= Seq::<char>::empty());
    String::new()
}

/// How `{:?}` writes the character `c`: quoted, with the escapes of
/// `char::escape_debug`.
pub uninterp spec fn char_debug(c: char) -> Seq<char>;

/// `<char as Debug>::fmt`, through `format!("{c:?}")`. What it writes
/// depends on the character alone, through Unicode tables, so it is named,
/// not written out.
#[verifier::external_body]
pub(crate) fn debug_char(c: char) -> (r: String)
    ensures
        r@ == char_debug(c),
{
    format!("{c:?}")
}
} // verus!
