//! String literals: a length, then the string's bytes, Huffman coded where
//! that is shorter.
//!
//! The length is an integer with a prefix of `prefix` bits; the bit above
//! the prefix says whether the bytes are Huffman coded.
use super::buffer::{get_u8_at, put_bytes_at, splice};
use super::error::Error;
use super::huffman::{
    huffman_decode, huffman_decoding, huffman_encode, huffman_encoded_len, huffman_encoding,
};
use super::prefix_int::{
    decode_int_at, encode_int_at, encoded_int_len, int_decoding, int_encoding, prefix_mask,
    prefix_mask_of,
};
use vstd::prelude::*;
use vstd::slice::{slice_subrange, slice_to_vec};

verus! {

/// The bit that marks a string as Huffman coded: the one above a prefix of
/// `prefix` bits.
pub open spec fn huffman_flag(prefix: u8) -> u8
    recommends
        1 <= prefix <= 7,
{
    (prefix_mask(prefix) + 1) as u8
}

/// The bytes that encode the string `s` with a length prefix of `prefix`
/// bits under the high bits `first`: the Huffman form where it is shorter
/// than `s`, and `s` itself where it is not.
#[verifier::opaque]
pub open spec fn string_encoding(s: Seq<u8>, prefix: u8, first: u8) -> Seq<u8>
    recommends
        1 <= prefix <= 7,
        s.len() <= u64::MAX,
{
    let h = huffman_encoding(s);
    if h.len() < s.len() {
        int_encoding(h.len() as u64, prefix, first | huffman_flag(prefix)) + h
    } else {
        int_encoding(s.len() as u64, prefix, first) + s
    }
}

/// What decoding a string with a length prefix of `prefix` bits at
/// `buf[off]` gives: the string and the offset behind it.
///
/// `BufferTooShort` where the buffer ends before the string does,
/// `InvalidHuffmanEncoding` where its bytes are marked as Huffman coded and
/// are no string's Huffman form, `HeaderListTooLarge` where the string has
/// more than `max_len` bytes.
#[verifier::opaque]
pub open spec fn string_decoding(buf: Seq<u8>, off: int, prefix: u8, max_len: nat) -> Result<
    (Seq<u8>, nat),
    Error,
>
    recommends
        1 <= prefix <= 7,
{
    match int_decoding(buf, off, prefix) {
        Err(e) => Err(e),
        Ok((len, next)) => if next + len > buf.len() {
            Err(Error::BufferTooShort)
        } else {
            let raw = buf.subrange(next as int, next + len);
            if buf[off] & huffman_flag(prefix) != 0 {
                match huffman_decoding(raw) {
                    None => Err(Error::InvalidHuffmanEncoding),
                    Some(s) => if s.len() > max_len {
                        Err(Error::HeaderListTooLarge)
                    } else {
                        Ok((s, (next + len) as nat))
                    },
                }
            } else if len > max_len {
                Err(Error::HeaderListTooLarge)
            } else {
                Ok((raw, (next + len) as nat))
            }
        },
    }
}

/// Writing `b` behind `a` is writing `a + b`.
pub proof fn lemma_splice_append(buf: Seq<u8>, off: int, a: Seq<u8>, b: Seq<u8>)
    requires
        0 <= off,
        off + a.len() + b.len() <= buf.len(),
    ensures
        splice(splice(buf, off, a), off + a.len(), b) == splice(buf, off, a + b),
        splice(buf, off, a).len() == buf.len(),
{
    assert(splice(splice(buf, off, a), off + a.len(), b) =~= splice(buf, off, a + b));
}

/// The bit that marks a string as Huffman coded.
pub fn huffman_flag_of(prefix: u8) -> (r: u8)
    requires
        1 <= prefix <= 7,
    ensures
        r == huffman_flag(prefix),
{
    prefix_mask_of(prefix) + 1
}

/// The number of bytes that the string `v` takes with a length prefix of
/// `prefix` bits.
pub fn encoded_str_len(v: &[u8], prefix: u8) -> (r: u128)
    requires
        1 <= prefix <= 7,
    ensures
        forall|first: u8| r == #[trigger] string_encoding(v@, prefix, first).len(),
        1 <= r <= v@.len() + 11,
        r <= usize::MAX + 11,
{
    proof {
        reveal(string_encoding);
    }
    let body: usize = match huffman_encoded_len(v) {
        Ok(n) => n,
        Err(_) => v.len(),
    };
    let head: usize = encoded_int_len(body as u64, prefix);
    head as u128 + body as u128
}

/// Writes the string `v` into `out` at `off`, with a length prefix of
/// `prefix` bits under the high bits `first`, and returns the number of
/// bytes written.
///
/// Nothing is written unless the whole string fits between `off` and the
/// end of `out`.
pub fn encode_str_at(v: &[u8], prefix: u8, first: u8, out: &mut [u8], off: usize) -> (r: Result<
    usize,
    Error,
>)
    requires
        1 <= prefix <= 7,
    ensures
        r is Ok <==> off + string_encoding(v@, prefix, first).len() <= old(out)@.len(),
        r is Ok ==> r->Ok_0 == string_encoding(v@, prefix, first).len() && final(out)@ == splice(
            old(out)@,
            off as int,
            string_encoding(v@, prefix, first),
        ),
        r is Err ==> r->Err_0 == Error::BufferTooShort && final(out)@ == old(out)@,
{
    let need: u128 = encoded_str_len(v, prefix);
    if off > out.len() || ((out.len() - off) as u128) < need {
        return Err(Error::BufferTooShort);
    }
    proof {
        reveal(string_encoding);
    }
    let ghost before = out@;
    match huffman_encode(v) {
        Ok(h) => {
            let flag: u8 = huffman_flag_of(prefix);
            let ghost head = int_encoding(h@.len() as u64, prefix, first | flag);
            let n: usize = match encode_int_at(h.len() as u64, prefix, first | flag, out, off) {
                Ok(n) => n,
                Err(e) => {
                    return Err(e);
                },
            };
            match put_bytes_at(out, off + n, h.as_slice()) {
                Ok(()) => {},
                Err(e) => {
                    return Err(Error::from(e));
                },
            }
            proof {
                lemma_splice_append(before, off as int, head, h@);
            }
            Ok(n + h.len())
        },
        Err(_) => {
            let ghost head = int_encoding(v@.len() as u64, prefix, first);
            let n: usize = match encode_int_at(v.len() as u64, prefix, first, out, off) {
                Ok(n) => n,
                Err(e) => {
                    return Err(e);
                },
            };
            match put_bytes_at(out, off + n, v) {
                Ok(()) => {},
                Err(e) => {
                    return Err(Error::from(e));
                },
            }
            proof {
                lemma_splice_append(before, off as int, head, v@);
            }
            Ok(n + v.len())
        },
    }
}

/// Writes the string `v` at the start of `buf`, with a length prefix of
/// `prefix_bits` bits under the high bits `first_byte_mask`, and returns the
/// number of bytes written.
pub fn encode_str(v: &[u8], prefix_bits: u8, first_byte_mask: u8, buf: &mut [u8]) -> (r: Result<
    usize,
    Error,
>)
    requires
        1 <= prefix_bits <= 7,
    ensures
        r is Ok <==> string_encoding(v@, prefix_bits, first_byte_mask).len() <= old(buf)@.len(),
        r is Ok ==> r->Ok_0 == string_encoding(v@, prefix_bits, first_byte_mask).len(),
        r is Ok ==> final(buf)@ == splice(
            old(buf)@,
            0,
            string_encoding(v@, prefix_bits, first_byte_mask),
        ),
        r is Err ==> r->Err_0 == Error::BufferTooShort && final(buf)@ == old(buf)@,
{
    encode_str_at(v, prefix_bits, first_byte_mask, buf, 0)
}

/// Reads the string with a length prefix of `prefix` bits that starts at
/// `buf[off]`, and returns it with the offset behind its last byte.
pub fn decode_str_at(buf: &[u8], off: usize, prefix: u8, max_len: u64) -> (r: Result<
    (Vec<u8>, usize),
    Error,
>)
    requires
        1 <= prefix <= 7,
    ensures
        match string_decoding(buf@, off as int, prefix, max_len as nat) {
            Ok((s, next)) => r is Ok && r->Ok_0.0@ == s && r->Ok_0.1 == next && off < next
                <= buf@.len(),
            Err(e) => r is Err && r->Err_0 == e,
        },
{
    proof {
        reveal(string_decoding);
        super::prefix_int::lemma_int_advances(buf@, off as int, prefix);
    }
    let first: u8 = match get_u8_at(buf, off) {
        Ok(b) => b,
        Err(e) => {
            return Err(Error::from(e));
        },
    };
    let (len, next) = match decode_int_at(buf, off, prefix) {
        Ok(x) => x,
        Err(e) => {
            return Err(e);
        },
    };
    if len > (buf.len() - next) as u64 {
        return Err(Error::BufferTooShort);
    }
    let end: usize = next + len as usize;
    let raw: &[u8] = slice_subrange(buf, next, end);
    if first & huffman_flag_of(prefix) != 0 {
        match huffman_decode(raw, max_len) {
            Ok(s) => Ok((s, end)),
            Err(e) => Err(e),
        }
    } else if len > max_len {
        Err(Error::HeaderListTooLarge)
    } else {
        Ok((slice_to_vec(raw), end))
    }
}

} // verus!
