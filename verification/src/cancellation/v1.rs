//! Writing what a store fetches.
use vstd::prelude::*;

use crate::output::Output;
use vstd::string::StringSliceAdditionalSpecFns;
use vstd::utf8::encode_utf8;

verus! {

/// Where the response comes from.
pub trait Store {
    /// Whether `data` is something a fetch can give; for a store that does
    /// not say, any data is.
    open spec fn fetches(&self, data: Seq<char>) -> bool {
        true
    }

    /// The data to respond with.
    fn fetch(&self) -> (r: String)
        ensures
            self.fetches(r@),
    ;
}

/// Writes what `store` fetches to `writer`: one write of the fetched data,
/// whose result is the result.
pub fn respond<W: Output, S: Store>(writer: &mut W, store: &S) -> (r: std::io::Result<()>)
    ensures
        exists|data: Seq<char>| #[trigger]
            store.fetches(data) && old(writer).can_write(data, r, *final(writer)),
        W::writes_all() ==> r is Ok && exists|data: Seq<char>| #[trigger]
            store.fetches(data) && final(writer).written() == old(writer).written()
                + encode_utf8(data),
{
    let data = store.fetch();
    let text = data.as_str();
    assert(text.spec_bytes() == encode_utf8(data@));
    writer.write_text(text)
}

} // verus!
