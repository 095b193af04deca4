//! Reading bytes until cancelled.
use vstd::prelude::*;

pub use crate::cancellation::CancellationToken;

verus! {

/// Something that bytes can be read from.
pub trait ByteSource {
    /// The bytes still to be read, for a source that says.
    open spec fn unread(&self) -> Seq<u8> {
        Seq::empty()
    }

    /// Whether a read of this kind of source takes bytes off the front of
    /// `unread`, as `slice_read` describes; a source that does not say makes
    /// no such claim.
    open spec fn reads_in_order() -> bool {
        false
    }

    /// Reads bytes into the front of `buf` and says how many, zero at the
    /// end of the input; a failed read takes nothing from the input.
    fn read_bytes(&mut self, buf: &mut [u8]) -> (r: std::io::Result<usize>)
        ensures
            Self::reads_in_order() ==> (r matches Ok(n) ==> slice_read(
                old(self).unread(),
                old(buf)@,
                final(self).unread(),
                final(buf)@,
                n,
            )),
            Self::reads_in_order() ==> (r is Err ==> final(self).unread() == old(self).unread()),
    ;
}

/// `<&[u8] as std::io::Read>::read`: where it reads `n` bytes, `n` is at
/// most the room in `buf` and what `source` holds, they are the first `n`
/// bytes of `source`, now at the front of `buf`, and `source` moves past
/// them; it reads none only where `source` or `buf` is empty. Where it
/// fails, no bytes were read, so `source` is as it was. What `buf` holds past
/// the bytes read, and on which inputs the read can fail, are left unsaid.
#[verifier::external_body]
fn read_slice(source: &mut &[u8], buf: &mut [u8]) -> (r: std::io::Result<usize>)
    ensures
        r matches Ok(n) ==> slice_read(old(source)@, old(buf)@, final(source)@, final(buf)@, n),
        r is Err ==> final(source)@ == old(source)@,
{
    std::io::Read::read(source, buf)
}

/// What a read of `n` bytes from a slice does, as `read_slice` states it.
pub open spec fn slice_read(
    source: Seq<u8>,
    buf: Seq<u8>,
    source_after: Seq<u8>,
    buf_after: Seq<u8>,
    n: usize,
) -> bool {
    &&& n <= buf.len()
    &&& n <= source.len()
    &&& (n == 0 <==> (source.len() == 0 || buf.len() == 0))
    &&& buf_after.len() == buf.len()
    &&& buf_after.take(n as int) == source.take(n as int)
    &&& source_after == source.skip(n as int)
}

impl ByteSource for &[u8] {
    open spec fn unread(&self) -> Seq<u8> {
        self@
    }

    open spec fn reads_in_order() -> bool {
        true
    }

    /// Copies from the front of the slice, as `std::io::Read` does.
    fn read_bytes(&mut self, buf: &mut [u8]) -> (r: std::io::Result<usize>)
        ensures
            r matches Ok(n) ==> slice_read(old(self)@, old(buf)@, final(self)@, final(buf)@, n),
            r is Err ==> final(self)@ == old(self)@,
    {
        read_slice(self, buf)
    }
}

/// `std::io::Error::new` with the kind `ErrorKind::Interrupted`: an
/// interrupted-operation error that carries `message`. The error is opaque
/// here, so nothing is stated of it.
#[verifier::external_body]
fn interrupted_error(message: &str) -> std::io::Error {
    std::io::Error::new(std::io::ErrorKind::Interrupted, message)
}

/// What a cancelled read says.
pub const CANCELLED_READ: &'static str = "read cancelled";

/// Reads from `reader` until `cancel` is raised.
pub struct CancellableReader<R> {
    reader: R,
    cancel: CancellationToken,
}

impl<R: ByteSource> CancellableReader<R> {
    /// A reader over `reader` that `cancel` can stop.
    pub fn new(reader: R, cancel: CancellationToken) -> (r: CancellableReader<R>)
        ensures
            r.source() == reader,
    {
        CancellableReader { reader, cancel }
    }

    /// What is read from.
    pub closed spec fn source(&self) -> R {
        self.reader
    }

    /// Fails with `Interrupted` once the token is raised; reads from the
    /// underlying reader otherwise. A refused or failed read consumes no
    /// input.
    pub fn read(&mut self, buf: &mut [u8]) -> (r: std::io::Result<usize>)
        ensures
            R::reads_in_order() ==> (r matches Ok(n) ==> slice_read(
                old(self).source().unread(),
                old(buf)@,
                final(self).source().unread(),
                final(buf)@,
                n,
            )),
            R::reads_in_order() ==> (r is Err ==> final(self).source().unread()
                == old(self).source().unread()),
    {
        if self.cancel.is_cancelled() {
            return Err(interrupted_error(CANCELLED_READ));
        }
        self.reader.read_bytes(buf)
    }
}

} // verus!
