//! A command line that reads one line and records the winner it names.
use vstd::prelude::*;

use std::sync::Arc;

use crate::text::{trimmed, without_suffix};
use vstd::utf8::{decode_utf8, valid_utf8};

pub use crate::players::{
    is_blank, score_reply, winner, FileSystemPlayerStore, Player, WIN_ACCEPTED,
};

verus! {

/// Where wins are recorded.
pub trait PlayerStore: Send + Sync {
    /// The wins of the player called `name`, if any.
    fn score(&self, name: &str) -> Option<i32>;

    /// Whether this store has been handed a win for the player called
    /// `name`: `record_win` establishes it, and nothing else in the library
    /// does. A store that does not say makes no claim by it.
    open spec fn took_win(&self, name: Seq<char>) -> bool {
        true
    }

    /// Records one more win for `name`.
    fn record_win(&self, name: &str)
        ensures
            self.took_win(name@),
    ;

    /// The players ranked by wins, most first.
    fn league(&self) -> Vec<Player>;
}

/// Where the command line reads its input, a line at a time.
pub trait LineReader {
    /// The bytes still to be read, for a reader that says.
    open spec fn unread(&self) -> Seq<u8> {
        Seq::empty()
    }

    /// Whether this kind of reader takes lines off the front of `unread`,
    /// as `line_read` describes; a reader that does not say makes no such
    /// claim.
    open spec fn reads_lines() -> bool {
        false
    }

    /// Appends the next line, with its line break, to `buf` and says how
    /// many bytes it read: zero at the end of the input or on an error.
    fn read_line(&mut self, buf: &mut String) -> (r: usize)
        ensures
            Self::reads_lines() ==> line_read(
                old(self).unread(),
                old(buf)@,
                final(self).unread(),
                final(buf)@,
                r,
            ),
    ;
}

/// How many bytes at the front of `bytes` make up its first line: up to
/// and including the first line break, or all of them where there is none.
pub open spec fn first_line_len(bytes: Seq<u8>) -> nat
    decreases bytes.len(),
{
    if bytes.len() == 0 {
        0
    } else if bytes[0] == 10 {
        1
    } else {
        1 + first_line_len(bytes.drop_first())
    }
}

/// A first line is no longer than the bytes it is taken from.
pub proof fn lemma_first_line_len_bound(bytes: Seq<u8>)
    ensures
        first_line_len(bytes) <= bytes.len(),
    decreases bytes.len(),
{
    if bytes.len() > 0 && bytes[0] != 10 {
        lemma_first_line_len_bound(bytes.drop_first());
    }
}

/// `<&[u8] as std::io::BufRead>::read_line`, with a failure read as zero
/// bytes: where the first line of `source` is valid UTF-8, it is taken off
/// `source` and appended to `buf`, and its length returned; otherwise the
/// read fails and zero is returned. What a failed read leaves in `source`
/// and `buf` is left unsaid.
#[verifier::external_body]
fn read_line_from_slice(source: &mut &[u8], buf: &mut String) -> (r: usize)
    ensures
        line_read(old(source)@, old(buf)@, final(source)@, final(buf)@, r),
{
    std::io::BufRead::read_line(source, buf).unwrap_or(0)
}

/// What reading a line from a slice does, as `read_line_from_slice` states
/// it.
pub open spec fn line_read(
    source: Seq<u8>,
    buf: Seq<char>,
    source_after: Seq<u8>,
    buf_after: Seq<char>,
    r: usize,
) -> bool {
    let line = source.take(first_line_len(source) as int);
    if valid_utf8(line) {
        &&& r == line.len()
        &&& buf_after == buf + decode_utf8(line)
        &&& source_after == source.skip(line.len() as int)
    } else {
        r == 0
    }
}

impl LineReader for &[u8] {
    open spec fn unread(&self) -> Seq<u8> {
        self@
    }

    open spec fn reads_lines() -> bool {
        true
    }

    /// Takes the first line off the slice, as `std::io::BufRead` does.
    fn read_line(&mut self, buf: &mut String) -> (r: usize)
        ensures
            line_read(old(self)@, old(buf)@, final(self)@, final(buf)@, r),
    {
        read_line_from_slice(self, buf)
    }
}

/// A poker session on the command line.
pub struct Cli<S, R> {
    store: Arc<S>,
    input: R,
}

impl<S: PlayerStore, R: LineReader> Cli<S, R> {
    /// The store the session records wins in.
    pub closed spec fn store(&self) -> Arc<S> {
        self.store
    }

    /// What the session reads from.
    pub closed spec fn input(&self) -> R {
        self.input
    }

    /// A session that records wins in `store` and reads from `input`.
    pub fn new(store: Arc<S>, input: R) -> (r: Cli<S, R>)
        ensures
            r.store() == store,
            r.input() == input,
    {
        Cli { store, input }
    }

    /// Reads a line and, where it says who won, records that player's win.
    /// The line is taken off the input, and the session keeps its store.
    /// Where the line, trimmed, ends in ` wins`, the store is handed a win
    /// for what comes before that.
    pub fn play_poker(&mut self)
        ensures
            final(self).store() == old(self).store(),
            ({
                let unread = old(self).input().unread();
                let line = unread.take(first_line_len(unread) as int);
                R::reads_lines() && valid_utf8(line) && line.len() > 0 ==> (without_suffix(
                    trimmed(decode_utf8(line)),
                    " wins"@,
                ) matches Some(name) ==> old(self).store().took_win(name))
            }),
            R::reads_lines() && valid_utf8(
                old(self).input().unread().take(first_line_len(old(self).input().unread()) as int),
            ) ==> final(self).input().unread() == old(self).input().unread().skip(
                first_line_len(old(self).input().unread()) as int,
            ),
    {
        let ghost unread = self.input.unread();
        proof {
            lemma_first_line_len_bound(self.input.unread());
        }
        let mut line = String::new();
        if self.input.read_line(&mut line) == 0 {
            return;
        }
        proof {
            if R::reads_lines() && valid_utf8(unread.take(first_line_len(unread) as int)) {
                assert(line@ =~= decode_utf8(unread.take(first_line_len(unread) as int)));
            }
        }
        if let Some(name) = winner(line.as_str()) {
            self.store.record_win(name);
        }
    }
}

} // verus!
