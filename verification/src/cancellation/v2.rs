//! Writing what a store fetches, unless the fetch was cancelled.
use vstd::prelude::*;

use crate::output::Output;
use vstd::string::StringSliceAdditionalSpecFns;
use vstd::utf8::encode_utf8;

pub use super::CancellationToken;

verus! {

/// The work was called off before it finished.
#[derive(Debug, PartialEq, Eq, Structural)]
pub struct Cancelled;

impl Cancelled {
    /// What happened, in words.
    pub fn to_string(&self) -> (r: String)
        ensures
            r@ == "the work was cancelled"@,
    {
        "the work was cancelled".to_string()
    }
}

/// What a fetch came to: the data, or `None` where it was cancelled.
pub open spec fn fetched(r: Result<String, Cancelled>) -> Option<Seq<char>> {
    match r {
        Ok(data) => Some(data@),
        Err(_) => None,
    }
}

/// The bytes a response writes for what a fetch came to: the data's, or
/// none where the fetch was cancelled.
pub open spec fn response_bytes(outcome: Option<Seq<char>>) -> Seq<u8> {
    match outcome {
        Some(data) => encode_utf8(data),
        None => Seq::empty(),
    }
}

/// Where the response comes from; a fetch may stop early once `cancel` is
/// raised.
pub trait Store {
    /// Whether a fetch under `cancel` can come to `outcome` (`None` for a
    /// cancelled fetch); for a store that does not say, anything can.
    open spec fn fetches(&self, cancel: CancellationToken, outcome: Option<Seq<char>>) -> bool {
        true
    }

    /// The data to respond with, or `Cancelled`.
    fn fetch(&self, cancel: &CancellationToken) -> (r: Result<String, Cancelled>)
        ensures
            self.fetches(*cancel, fetched(r)),
    ;
}

/// What responding with `outcome` does to a sink that was `before`: for
/// fetched data, one write of the data, giving `r` and leaving `after`; for
/// a cancelled fetch, nothing written and `Ok(())`.
pub open spec fn responded<W: Output>(
    before: W,
    outcome: Result<String, Cancelled>,
    r: std::io::Result<()>,
    after: W,
) -> bool {
    match outcome {
        Ok(data) => before.can_write(data@, r, after),
        Err(_) => r is Ok && after == before,
    }
}

/// Writes the outcome of a fetch to `writer`: the data when there is some,
/// with the write's result as the result, and nothing, with `Ok(())`, when
/// the fetch was cancelled.
pub fn respond_with<W: Output>(writer: &mut W, outcome: Result<String, Cancelled>) -> (r:
    std::io::Result<()>)
    ensures
        responded(*old(writer), outcome, r, *final(writer)),
        W::writes_all() ==> r is Ok && final(writer).written() == old(writer).written()
            + response_bytes(fetched(outcome)),
{
    match outcome {
        Ok(data) => {
            let text = data.as_str();
            assert(text.spec_bytes() == encode_utf8(data@));
            writer.write_text(text)
        },
        Err(Cancelled) => {
            assert(writer.written() =~= old(writer).written() + response_bytes(None));
            Ok(())
        },
    }
}

/// Fetches from `store` under `cancel`, once, and responds with what the
/// fetch came to.
pub fn respond<W: Output, S: Store>(
    writer: &mut W,
    store: &S,
    cancel: &CancellationToken,
) -> (r: std::io::Result<()>)
    ensures
        exists|outcome: Result<String, Cancelled>| #[trigger]
            store.fetches(*cancel, fetched(outcome)) && responded(
                *old(writer),
                outcome,
                r,
                *final(writer),
            ),
        W::writes_all() ==> r is Ok && exists|outcome: Option<Seq<char>>| #[trigger]
            store.fetches(*cancel, outcome) && final(writer).written() == old(writer).written()
                + response_bytes(outcome),
{
    let outcome = store.fetch(cancel);
    let ghost seen = outcome;
    let r = respond_with(writer, outcome);
    assert(store.fetches(*cancel, fetched(seen)));
    r
}

} // verus!
