//! Bounds-checked access to caller-provided byte buffers.
//!
//! Reads and writes go through the `octets` cursor types, which refuse to
//! touch a buffer past its end. The functions here are the only places where
//! the library hands a buffer to that crate.
use vstd::prelude::*;

verus! {

/// `buf` with the bytes from `off` on overwritten by `data`.
pub open spec fn splice(buf: Seq<u8>, off: int, data: Seq<u8>) -> Seq<u8>
    recommends
        0 <= off,
        off + data.len() <= buf.len(),
{
    buf.subrange(0, off) + data + buf.subrange(off + data.len(), buf.len() as int)
}

/// Reads the byte at `off`.
///
/// Calls `octets::Octets::with_slice`, then `skip(off)` and `get_u8()` on the
/// cursor. `skip` fails when `off` is past the end, `get_u8` when no byte is
/// left at the offset; otherwise the byte at the offset comes back.
#[verifier::external_body]
pub(crate) fn get_u8_at(buf: &[u8], off: usize) -> (r: Result<u8, octets::BufferTooShortError>)
    ensures
        r is Ok <==> off < buf@.len(),
        r is Ok ==> r->Ok_0 == buf@[off as int],
{
    let mut b = octets::Octets::with_slice(buf);
    b.skip(off)?;
    b.get_u8()
}

/// Writes `v` at `off`.
///
/// Calls `octets::OctetsMut::with_slice`, then `skip(off)` and `put_u8(v)` on
/// the cursor. Either call fails when no byte is left at the offset, and the
/// buffer is then untouched; otherwise exactly that byte is overwritten.
#[verifier::external_body]
pub(crate) fn put_u8_at(out: &mut [u8], off: usize, v: u8) -> (r: Result<
    (),
    octets::BufferTooShortError,
>)
    ensures
        r is Ok <==> off < old(out)@.len(),
        r is Ok ==> final(out)@ == old(out)@.update(off as int, v),
        r is Err ==> final(out)@ == old(out)@,
{
    let mut b = octets::OctetsMut::with_slice(out);
    b.skip(off)?;
    b.put_u8(v)?;
    Ok(())
}

/// Copies `data` into `out`, starting at `off`.
///
/// Calls `octets::OctetsMut::with_slice`, then `skip(off)` and
/// `put_bytes(data)` on the cursor. Either call fails when fewer than
/// `data.len()` bytes are left at the offset, and the buffer is then
/// untouched; otherwise exactly those bytes are overwritten.
#[verifier::external_body]
pub(crate) fn put_bytes_at(out: &mut [u8], off: usize, data: &[u8]) -> (r: Result<
    (),
    octets::BufferTooShortError,
>)
    ensures
        r is Ok <==> off + data@.len() <= old(out)@.len(),
        r is Ok ==> final(out)@ == splice(old(out)@, off as int, data@),
        r is Err ==> final(out)@ == old(out)@,
{
    let mut b = octets::OctetsMut::with_slice(out);
    b.skip(off)?;
    b.put_bytes(data)
}

} // verus!
