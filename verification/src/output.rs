//! Where text is written: any sink that can take a string, with a vector of
//! bytes as the sink that the library itself provides.
use vstd::prelude::*;

use vstd::string::StringSliceAdditionalSpecFns;
use vstd::utf8::encode_utf8;

verus! {

/// `std::io::Error`, which writing can fail with; the library only passes
/// it on.
#[verifier::external_type_specification]
#[verifier::external_body]
pub struct ExIoError(std::io::Error);

/// Something that text can be written to.
pub trait Output {
    /// The bytes the sink holds, for a sink that keeps what it is given;
    /// nothing for one that does not say.
    open spec fn written(&self) -> Seq<u8> {
        Seq::empty()
    }

    /// Whether every write to this kind of sink succeeds and appends the
    /// text's UTF-8 bytes to `written`; a sink that can fail, or keeps
    /// nothing, does not claim it, and neither does one that does not say.
    open spec fn writes_all() -> bool {
        false
    }

    /// Whether writing `text` to this sink can give `r` and leave the sink
    /// as `after`; for a sink that does not say, anything can.
    open spec fn can_write(&self, text: Seq<char>, r: std::io::Result<()>, after: Self) -> bool
        where Self: Sized
    {
        true
    }

    /// Writes all of `text`, or fails.
    fn write_text(&mut self, text: &str) -> (r: std::io::Result<()>)
        where Self: Sized
        ensures
            Self::writes_all() ==> r is Ok && final(self).written() == old(self).written()
                + text.spec_bytes(),
            old(self).can_write(text@, r, *final(self)),
    ;
}

/// Whether writing `texts` to `before` one after another, stopping at the
/// first write that fails, can give `r` and leave the sink as `after`, as
/// each write's `can_write` allows: where every write succeeds `r` is `Ok`,
/// and where one fails its error is `r` and nothing after it is written.
pub open spec fn wrote_in_turn<W: Output>(
    before: W,
    texts: Seq<Seq<char>>,
    r: std::io::Result<()>,
    after: W,
) -> bool
    decreases texts.len(),
{
    if texts.len() == 0 {
        r is Ok && after == before
    } else {
        exists|mid: W, first: std::io::Result<()>|
            #[trigger] before.can_write(texts[0], first, mid) && if first is Err {
                r == first && after == mid
            } else {
                wrote_in_turn(mid, texts.drop_first(), r, after)
            }
    }
}

/// Texts written in turn with success, then more texts written in turn,
/// are all of them written in turn.
pub proof fn lemma_wrote_then<W: Output>(
    start: W,
    done: Seq<Seq<char>>,
    mid: W,
    more: Seq<Seq<char>>,
    r: std::io::Result<()>,
    after: W,
)
    requires
        wrote_in_turn(start, done, Ok(()), mid),
        wrote_in_turn(mid, more, r, after),
    ensures
        wrote_in_turn(start, done + more, r, after),
    decreases done.len(),
{
    if done.len() == 0 {
        assert(done + more =~= more);
    } else {
        let (next, first) = choose|next: W, first: std::io::Result<()>|
            #[trigger] start.can_write(done[0], first, next) && if first is Err {
                Ok::<(), std::io::Error>(()) == first && mid == next
            } else {
                wrote_in_turn(next, done.drop_first(), Ok(()), mid)
            };
        lemma_wrote_then(next, done.drop_first(), mid, more, r, after);
        assert(done.drop_first() + more =~= (done + more).drop_first());
        assert((done + more)[0] == done[0]);
        assert(start.can_write((done + more)[0], first, next));
    }
}

/// After texts written in turn with success, one more write that gives `r`:
/// the texts and that one are written in turn with result `r`, and where
/// the write failed, so are they followed by any others, which are never
/// written.
pub proof fn lemma_write_next<W: Output>(
    start: W,
    done: Seq<Seq<char>>,
    mid: W,
    text: Seq<char>,
    r: std::io::Result<()>,
    after: W,
    rest: Seq<Seq<char>>,
)
    requires
        wrote_in_turn(start, done, Ok(()), mid),
        mid.can_write(text, r, after),
    ensures
        wrote_in_turn(start, done.push(text), r, after),
        r is Err ==> wrote_in_turn(start, done.push(text) + rest, r, after),
{
    let one = seq![text];
    assert(one[0] == text);
    assert(one.drop_first() =~= Seq::<Seq<char>>::empty());
    assert(mid.can_write(one[0], r, after));
    if r is Ok {
        assert(wrote_in_turn(after, one.drop_first(), r, after));
    }
    assert(wrote_in_turn(mid, one, r, after));
    lemma_wrote_then(start, done, mid, one, r, after);
    assert(done + one =~= done.push(text));
    if r is Err {
        let tail = one + rest;
        assert(tail[0] == text);
        assert(mid.can_write(tail[0], r, after));
        assert(wrote_in_turn(mid, tail, r, after));
        lemma_wrote_then(start, done, mid, tail, r, after);
        assert(done + tail =~= done.push(text) + rest);
    }
}

/// Before any write, none of `texts` was written.
pub proof fn lemma_none_written<W: Output>(start: W, texts: Seq<Seq<char>>)
    ensures
        wrote_in_turn(start, texts.take(0), Ok(()), start),
{
    assert(texts.take(0) =~= Seq::<Seq<char>>::empty());
}

/// The first `k` of `texts` written in turn with success, then the next one
/// written with result `r`: where that write failed, all of `texts` were
/// written in turn with result `r`; where it did not, the first `k + 1`
/// were, with success.
pub proof fn lemma_write_at<W: Output>(
    start: W,
    texts: Seq<Seq<char>>,
    k: int,
    mid: W,
    r: std::io::Result<()>,
    after: W,
)
    requires
        0 <= k < texts.len(),
        wrote_in_turn(start, texts.take(k), Ok(()), mid),
        mid.can_write(texts[k], r, after),
    ensures
        r is Ok ==> r == Ok::<(), std::io::Error>(()) && wrote_in_turn(
            start,
            texts.take(k + 1),
            r,
            after,
        ),
        r is Err ==> wrote_in_turn(start, texts, r, after),
{
    lemma_write_next(start, texts.take(k), mid, texts[k], r, after, texts.skip(k + 1));
    assert(texts.take(k).push(texts[k]) =~= texts.take(k + 1));
    assert(texts.take(k).push(texts[k]) + texts.skip(k + 1) =~= texts);
    if r is Ok {
        assert(r->Ok_0 == ());
        assert(r == Ok::<(), std::io::Error>(()));
    }
}

impl Output for Vec<u8> {
    open spec fn written(&self) -> Seq<u8> {
        self@
    }

    open spec fn writes_all() -> bool {
        true
    }

    open spec fn can_write(&self, text: Seq<char>, r: std::io::Result<()>, after: Self) -> bool {
        r is Ok && after@ == self@ + encode_utf8(text)
    }

    /// Appends the UTF-8 bytes of `text`; this never fails.
    fn write_text(&mut self, text: &str) -> (r: std::io::Result<()>)
        ensures
            r is Ok,
            final(self)@ == old(self)@ + text.spec_bytes(),
    {
        self.extend_from_slice(text.as_bytes());
        Ok(())
    }
}

} // verus!
