//! A countdown to "Go!", written to any output: first alone, then with a
//! sleeper between the lines, then with a sleeper whose pause is chosen.
use vstd::prelude::*;

use crate::output::{lemma_none_written, lemma_write_at, wrote_in_turn, Output};
use crate::text::{decimal, lemma_encode_utf8_concat, push_decimal};
use vstd::utf8::encode_utf8;
use vstd::string::StringExecFns;

pub mod v1;
pub mod v2;
pub mod v3;
pub mod v4;

verus! {

/// The word the countdown ends with.
pub const FINAL_WORD: &'static str = "Go!";

/// Where the countdown starts.
pub const COUNTDOWN_START: u32 = 3;

/// The line that announces `i`: its numeral and a line break.
pub fn countdown_line(i: u32) -> (r: String)
    ensures
        r@ == decimal(i as nat) + "\n"@,
{
    let mut line = String::new();
    push_decimal(&mut line, i as u64);
    line.append("\n");
    line
}

/// The lines that count down from `i` to one.
pub open spec fn lines_down(i: nat) -> Seq<char>
    decreases i,
{
    if i == 0 {
        Seq::empty()
    } else {
        decimal(i) + "\n"@ + lines_down((i - 1) as nat)
    }
}

/// What a countdown writes: the lines from the start down to one, then the
/// final word.
pub open spec fn countdown_text() -> Seq<char> {
    lines_down(COUNTDOWN_START as nat) + FINAL_WORD@
}

/// The writes a countdown makes, in turn: the line for each number from
/// the start down to one, then the final word.
pub open spec fn countdown_writes() -> Seq<Seq<char>> {
    Seq::new(COUNTDOWN_START as nat, |k: int| decimal((COUNTDOWN_START - k) as nat) + "\n"@).push(
        FINAL_WORD@,
    )
}

/// Before the first write of a countdown, none of its writes were made.
pub proof fn lemma_countdown_begins<W: Output>(start: W)
    ensures
        wrote_in_turn(start, countdown_writes().take(0), Ok(()), start),
{
    lemma_none_written(start, countdown_writes());
}

/// The writes of a countdown made in turn up to the line for `i`, then that
/// line written with result `r`: where it failed, the countdown has ended
/// with `r`; where it did not, one write more was made.
pub proof fn lemma_countdown_step<W: Output>(
    start: W,
    i: u32,
    mid: W,
    r: std::io::Result<()>,
    after: W,
)
    requires
        1 <= i <= COUNTDOWN_START,
        wrote_in_turn(start, countdown_writes().take(COUNTDOWN_START - i), Ok(()), mid),
        mid.can_write(decimal(i as nat) + "\n"@, r, after),
    ensures
        r is Ok ==> wrote_in_turn(
            start,
            countdown_writes().take(COUNTDOWN_START - i + 1),
            Ok(()),
            after,
        ),
        r is Err ==> wrote_in_turn(start, countdown_writes(), r, after),
{
    let k = COUNTDOWN_START - i;
    assert(countdown_writes()[k] == decimal(i as nat) + "\n"@);
    lemma_write_at(start, countdown_writes(), k, mid, r, after);
}

/// The lines of a countdown written in turn, then the final word written
/// with result `r`: the countdown has made all its writes in turn, ending
/// with `r`.
pub proof fn lemma_countdown_ends<W: Output>(
    start: W,
    mid: W,
    r: std::io::Result<()>,
    after: W,
)
    requires
        wrote_in_turn(start, countdown_writes().take(COUNTDOWN_START as int), Ok(()), mid),
        mid.can_write(FINAL_WORD@, r, after),
    ensures
        wrote_in_turn(start, countdown_writes(), r, after),
{
    let k = COUNTDOWN_START as int;
    assert(countdown_writes()[k] == FINAL_WORD@);
    lemma_write_at(start, countdown_writes(), k, mid, r, after);
    assert(countdown_writes().take(k + 1) =~= countdown_writes());
}

/// After the lines `done` and the line for `i`, what is left is the lines
/// below `i`, and the bytes of the lines written so far grow by those of
/// the line for `i`.
pub proof fn lemma_next_line(done: Seq<char>, i: nat)
    requires
        i >= 1,
        done + lines_down(i) == lines_down(COUNTDOWN_START as nat),
    ensures
        (done + (decimal(i) + "\n"@)) + lines_down((i - 1) as nat) == lines_down(
            COUNTDOWN_START as nat,
        ),
        encode_utf8(done + (decimal(i) + "\n"@)) == encode_utf8(done) + encode_utf8(
            decimal(i) + "\n"@,
        ),
{
    assert((done + (decimal(i) + "\n"@)) + lines_down((i - 1) as nat) =~= done + lines_down(i));
    lemma_encode_utf8_concat(done, decimal(i) + "\n"@);
}

/// The lines written and the final word make up the countdown's text.
pub proof fn lemma_last_word(done: Seq<char>)
    requires
        done + lines_down(0) == lines_down(COUNTDOWN_START as nat),
    ensures
        encode_utf8(countdown_text()) == encode_utf8(done) + encode_utf8(FINAL_WORD@),
{
    assert(done + lines_down(0) =~= done);
    lemma_encode_utf8_concat(done, FINAL_WORD@);
}
} // verus!
