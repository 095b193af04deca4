//! Greeting into a byte buffer.
use vstd::prelude::*;

use crate::output::Output;
use crate::text::lemma_encode_utf8_concat;
use vstd::utf8::encode_utf8;

verus! {

/// Writes `Hello, ` and the name into `writer`.
pub fn greet(writer: &mut Vec<u8>, name: &str) -> (r: std::io::Result<()>)
    ensures
        r is Ok,
        final(writer)@ == old(writer)@ + encode_utf8("Hello, "@ + name@),
{
    let _ = writer.write_text("Hello, ");
    let _ = writer.write_text(name);
    proof {
        lemma_encode_utf8_concat("Hello, "@, name@);
    }
    assert(final(writer)@ =~= old(writer)@ + encode_utf8("Hello, "@ + name@));
    Ok(())
}

} // verus!
