//! Counting down with a sleeper whose pause and way of pausing are chosen.
use vstd::prelude::*;

use std::time::Duration;

use super::{
    countdown_line, countdown_text, countdown_writes, lemma_countdown_begins,
    lemma_countdown_ends, lemma_countdown_step, lemma_last_word, lemma_next_line, lines_down,
    COUNTDOWN_START, FINAL_WORD,
};
use crate::output::{wrote_in_turn, Output};
use crate::text::decimal;
use vstd::string::StringSliceAdditionalSpecFns;
use vstd::utf8::encode_utf8;

verus! {

/// Something that pauses.
pub trait Sleeper {
    /// Pauses.
    fn sleep(&self);
}

/// A sleeper that pauses by handing a fixed duration to a function.
pub struct ConfigurableSleeper<F: Fn(Duration)> {
    duration: Duration,
    sleep_fn: F,
}

impl<F: Fn(Duration)> ConfigurableSleeper<F> {
    #[verifier::type_invariant]
    spec fn callable(self) -> bool {
        forall|d: Duration| self.sleep_fn.requires((d,))
    }

    /// A sleeper that calls `sleep_fn` with `duration` each time it pauses.
    pub fn new(duration: Duration, sleep_fn: F) -> (r: Self)
        requires
            forall|d: Duration| sleep_fn.requires((d,)),
        ensures
            r.duration() == duration,
            r.sleep_fn() == sleep_fn,
    {
        ConfigurableSleeper { duration, sleep_fn }
    }

    /// How long each pause is.
    pub closed spec fn duration(self) -> Duration {
        self.duration
    }

    /// What each pause calls.
    pub closed spec fn sleep_fn(self) -> F {
        self.sleep_fn
    }
}

impl<F: Fn(Duration)> Sleeper for ConfigurableSleeper<F> {
    /// Calls the sleep function with the configured duration.
    fn sleep(&self)
        ensures
            self.sleep_fn().ensures((self.duration(),), ()),
    {
        proof {
            use_type_invariant(self);
        }
        (self.sleep_fn)(self.duration);
    }
}

/// Writes `3`, `2` and `1` on lines of their own, pausing after each, then
/// `Go!`; the first failure to write ends it.
pub fn countdown<W: Output, S: Sleeper>(out: &mut W, sleeper: &S) -> (r: std::io::Result<()>)
    ensures
        W::writes_all() ==> r is Ok && final(out).written() == old(out).written() + encode_utf8(
            countdown_text(),
        ),
        wrote_in_turn(*old(out), countdown_writes(), r, *final(out)),
{
    let ghost start = *out;
    proof {
        lemma_countdown_begins(start);
    }
    let mut i: u32 = COUNTDOWN_START;
    let ghost done: Seq<char> = Seq::empty();
    assert(done + lines_down(i as nat) =~= lines_down(COUNTDOWN_START as nat));
    while i >= 1
        invariant
            done + lines_down(i as nat) == lines_down(COUNTDOWN_START as nat),
            W::writes_all() ==> out.written() == old(out).written() + encode_utf8(done),
            i <= COUNTDOWN_START,
            start == *old(out),
            wrote_in_turn(start, countdown_writes().take(COUNTDOWN_START - i), Ok(()), *out),
        decreases i,
    {
        let line = countdown_line(i);
        proof {
            lemma_next_line(done, i as nat);
        }
        let text = line.as_str();
        let ghost before = *out;
        let written = out.write_text(text);
        proof {
            lemma_countdown_step(start, i, before, written, *out);
        }
        if written.is_err() {
            return written;
        }
        proof {
            assert(text.spec_bytes() == encode_utf8(decimal(i as nat) + "\n"@));
            done = done + (decimal(i as nat) + "\n"@);
        }
        sleeper.sleep();
        i = i - 1;
    }
    proof {
        lemma_last_word(done);
        assert(FINAL_WORD.spec_bytes() == encode_utf8(FINAL_WORD@));
    }
    let ghost before = *out;
    let r = out.write_text(FINAL_WORD);
    proof {
        lemma_countdown_ends(start, before, r, *out);
    }
    r
}

} // verus!
