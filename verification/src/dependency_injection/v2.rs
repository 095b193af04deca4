//! Greeting into any output.
use vstd::prelude::*;

use crate::output::{lemma_write_next, wrote_in_turn, Output};
use crate::text::lemma_encode_utf8_concat;
use vstd::string::StringSliceAdditionalSpecFns;
use vstd::utf8::encode_utf8;

verus! {

/// Writes `Hello, ` and the name into `writer`, in two writes, or passes
/// on the first failure to write.
pub fn greet<W: Output>(writer: &mut W, name: &str) -> (r: std::io::Result<()>)
    ensures
        W::writes_all() ==> r is Ok && final(writer).written() == old(writer).written()
            + encode_utf8("Hello, "@ + name@),
        wrote_in_turn(*old(writer), seq!["Hello, "@, name@], r, *final(writer)),
{
    let ghost start = *writer;
    let prefix = "Hello, ";
    let first = writer.write_text(prefix);
    proof {
        assert(wrote_in_turn(start, Seq::empty(), Ok(()), start));
        lemma_write_next(start, Seq::empty(), start, prefix@, first, *writer, seq![name@]);
        assert(Seq::<Seq<char>>::empty().push("Hello, "@) + seq![name@] =~= seq![
            "Hello, "@,
            name@,
        ]);
    }
    if first.is_err() {
        return first;
    }
    let ghost mid = *writer;
    proof {
        lemma_encode_utf8_concat("Hello, "@, name@);
        assert(prefix.spec_bytes() == encode_utf8("Hello, "@));
        assert(name.spec_bytes() == encode_utf8(name@));
    }
    let r = writer.write_text(name);
    proof {
        assert(first is Ok);
        assert(first->Ok_0 == ());
        assert(first == Ok::<(), std::io::Error>(()));
        assert(Seq::<Seq<char>>::empty().push("Hello, "@) =~= seq!["Hello, "@]);
        lemma_write_next(start, seq!["Hello, "@], mid, name@, r, *writer, Seq::empty());
        assert(seq!["Hello, "@].push(name@) =~= seq!["Hello, "@, name@]);
    }
    assert(W::writes_all() ==> writer.written() =~= old(writer).written() + encode_utf8(
        "Hello, "@ + name@,
    ));
    r
}

} // verus!
