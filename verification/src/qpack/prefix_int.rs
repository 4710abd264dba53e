//! The prefixed-integer codec.
//!
//! An integer is stored in the low `prefix` bits of a first byte whose high
//! bits belong to the caller. A value too large for the prefix fills it with
//! ones and continues in base 128, least significant group first, each byte
//! carrying seven bits and a flag that says whether another byte follows.
//!
//! Every `u64` can be encoded, in at most eleven bytes. Decoding accepts any
//! continuation whose value fits in a `u64`, however many bytes it takes, and
//! rejects every other.
use super::buffer::{get_u8_at, put_u8_at, splice};
use super::error::Error;
use vstd::prelude::*;

verus! {

/// The largest number that `prefix` bits hold: `2^prefix - 1`.
pub open spec fn prefix_mask(prefix: u8) -> u8
    recommends
        1 <= prefix <= 8,
{
    if prefix == 1 {
        0x01
    } else if prefix == 2 {
        0x03
    } else if prefix == 3 {
        0x07
    } else if prefix == 4 {
        0x0f
    } else if prefix == 5 {
        0x1f
    } else if prefix == 6 {
        0x3f
    } else if prefix == 7 {
        0x7f
    } else {
        0xff
    }
}

/// The continuation bytes of `rest`, the part of a value that did not fit in
/// the prefix.
pub open spec fn int_tail(rest: nat) -> Seq<u8>
    decreases rest,
{
    if rest < 128 {
        seq![rest as u8]
    } else {
        seq![(rest % 128 + 128) as u8] + int_tail(rest / 128)
    }
}

/// The bytes that encode `value` with a prefix of `prefix` bits under the
/// high bits `first`.
pub open spec fn int_encoding(value: u64, prefix: u8, first: u8) -> Seq<u8>
    recommends
        1 <= prefix <= 8,
{
    let mask = prefix_mask(prefix);
    if value < mask {
        seq![first | (value as u8)]
    } else {
        seq![first | mask] + int_tail((value - mask) as nat)
    }
}

/// Reads continuation bytes from `buf[i]` on: `acc` is the value gathered so
/// far and `weight` the weight of the next group of seven bits. The result
/// is the value and the offset behind its last byte.
pub open spec fn int_tail_decoding(buf: Seq<u8>, i: int, acc: nat, weight: nat) -> Result<
    (u64, nat),
    Error,
>
    decreases buf.len() - i,
{
    if i < 0 || i >= buf.len() {
        Err(Error::BufferTooShort)
    } else {
        let acc2 = acc + ((buf[i] % 128) as nat) * weight;
        if acc2 > u64::MAX {
            Err(Error::BufferTooShort)
        } else if buf[i] < 128 {
            Ok((acc2 as u64, (i + 1) as nat))
        } else {
            int_tail_decoding(buf, i + 1, acc2, weight * 128)
        }
    }
}

/// What decoding an integer with a prefix of `prefix` bits at `buf[off]`
/// gives: the value and the offset behind its last byte, or
/// `BufferTooShort` where the buffer ends before the integer does or the
/// value does not fit in a `u64`.
#[verifier::opaque]
pub open spec fn int_decoding(buf: Seq<u8>, off: int, prefix: u8) -> Result<(u64, nat), Error>
    recommends
        1 <= prefix <= 8,
{
    if off < 0 || off >= buf.len() {
        Err(Error::BufferTooShort)
    } else {
        let mask = prefix_mask(prefix);
        let low = buf[off] & mask;
        if low < mask {
            Ok((low as u64, (off + 1) as nat))
        } else {
            int_tail_decoding(buf, off + 1, mask as nat, 1)
        }
    }
}

/// `128^k`.
spec fn pow128(k: nat) -> nat
    decreases k,
{
    if k == 0 {
        1
    } else {
        128 * pow128((k - 1) as nat)
    }
}

/// A continuation has between one and ten bytes, and one where the value is
/// below 128.
pub proof fn lemma_int_tail_len(rest: nat)
    requires
        rest <= u64::MAX,
    ensures
        1 <= int_tail(rest).len() <= 10,
        rest < 128 ==> int_tail(rest).len() == 1,
{
    assert(pow128(10) == 0x40_0000_0000_0000_0000) by {
        reveal_with_fuel(pow128, 11);
    }
    lemma_int_tail_len_bounded(rest, 10);
}

proof fn lemma_int_tail_len_bounded(rest: nat, k: nat)
    requires
        k >= 1,
        rest < pow128(k),
    ensures
        1 <= int_tail(rest).len() <= k,
        rest < 128 ==> int_tail(rest).len() == 1,
    decreases rest,
{
    reveal_with_fuel(pow128, 2);
    if rest >= 128 {
        if k > 1 {
            lemma_int_tail_len_bounded(rest / 128, (k - 1) as nat);
        }
    }
}

/// An encoded integer has between one and eleven bytes.
pub proof fn lemma_int_encoding_len(value: u64, prefix: u8, first: u8)
    ensures
        1 <= int_encoding(value, prefix, first).len() <= 11,
        value < prefix_mask(prefix) <==> int_encoding(value, prefix, first).len() == 1,
{
    let mask = prefix_mask(prefix);
    if value >= mask {
        lemma_int_tail_len((value - mask) as nat);
    }
}

/// The largest number that `prefix` bits hold.
pub fn prefix_mask_of(prefix: u8) -> (r: u8)
    ensures
        r == prefix_mask(prefix),
{
    if prefix == 1 {
        0x01
    } else if prefix == 2 {
        0x03
    } else if prefix == 3 {
        0x07
    } else if prefix == 4 {
        0x0f
    } else if prefix == 5 {
        0x1f
    } else if prefix == 6 {
        0x3f
    } else if prefix == 7 {
        0x7f
    } else {
        0xff
    }
}

/// The number of bytes that `value` takes with a prefix of `prefix` bits.
pub fn encoded_int_len(value: u64, prefix: u8) -> (r: usize)
    ensures
        forall|first: u8| r == #[trigger] int_encoding(value, prefix, first).len(),
        1 <= r <= 11,
{
    let mask: u8 = prefix_mask_of(prefix);
    proof {
        lemma_int_encoding_len(value, prefix, 0);
    }
    if value < mask as u64 {
        return 1;
    }
    let mut rest: u64 = value - mask as u64;
    let mut n: usize = 2;
    proof {
        lemma_int_tail_len(rest as nat);
    }
    while rest >= 128
        invariant
            2 <= n,
            n - 1 + int_tail(rest as nat).len() == 1 + int_tail((value - mask) as nat).len(),
            int_tail((value - mask) as nat).len() <= 10,
        decreases rest,
    {
        rest = rest / 128;
        n = n + 1;
    }
    n
}

/// Writes `value` into `out` at `off`, with a prefix of `prefix` bits under
/// the high bits `first`, and returns the number of bytes written.
///
/// Nothing is written unless the whole integer fits between `off` and the
/// end of `out`.
pub fn encode_int_at(value: u64, prefix: u8, first: u8, out: &mut [u8], off: usize) -> (r: Result<
    usize,
    Error,
>)
    requires
        1 <= prefix <= 8,
    ensures
        r is Ok <==> off + int_encoding(value, prefix, first).len() <= old(out)@.len(),
        r is Ok ==> r->Ok_0 == int_encoding(value, prefix, first).len() && final(out)@ == splice(
            old(out)@,
            off as int,
            int_encoding(value, prefix, first),
        ),
        r is Err ==> r->Err_0 == Error::BufferTooShort && final(out)@ == old(out)@,
{
    let n = encoded_int_len(value, prefix);
    if off > out.len() || out.len() - off < n {
        return Err(Error::BufferTooShort);
    }
    let ghost enc = int_encoding(value, prefix, first);
    let ghost before = out@;
    let mask: u8 = prefix_mask_of(prefix);
    if value < mask as u64 {
        match put_u8_at(out, off, first | (value as u8)) {
            Ok(()) => {},
            Err(e) => {
                return Err(Error::from(e));
            },
        }
        assert(out@ =~= splice(before, off as int, enc));
        return Ok(1);
    }
    match put_u8_at(out, off, first | mask) {
        Ok(()) => {},
        Err(e) => {
            return Err(Error::from(e));
        },
    }
    let mut rest: u64 = value - mask as u64;
    let mut k: usize = 1;
    let ghost mut done: Seq<u8> = seq![first | mask];
    assert(out@ =~= splice(before, off as int, done));
    while rest >= 128
        invariant
            1 <= k < n,
            off + n <= before.len(),
            out@.len() == before.len(),
            before.len() <= usize::MAX,
            n == enc.len(),
            done.len() == k,
            enc =~= done + int_tail(rest as nat),
            out@ == splice(before, off as int, done),
        decreases rest,
    {
        let b: u8 = (rest % 128 + 128) as u8;
        let ghost mid = out@;
        match put_u8_at(out, off + k, b) {
            Ok(()) => {},
            Err(e) => {
                return Err(Error::from(e));
            },
        }
        proof {
            assert(int_tail(rest as nat) =~= seq![b] + int_tail((rest / 128) as nat));
            assert(int_tail((rest / 128) as nat).len() >= 1) by {
                lemma_int_tail_len((rest / 128) as nat);
            }
            assert(out@ =~= splice(before, off as int, done.push(b)));
            done = done.push(b);
        }
        rest = rest / 128;
        k = k + 1;
    }
    match put_u8_at(out, off + k, rest as u8) {
        Ok(()) => {},
        Err(e) => {
            return Err(Error::from(e));
        },
    }
    proof {
        assert(int_tail(rest as nat) =~= seq![rest as u8]);
        assert(done.push(rest as u8) =~= enc);
        assert(out@ =~= splice(before, off as int, done.push(rest as u8)));
    }
    Ok(n)
}

/// Writes `value` at the start of `buf`, with a prefix of `prefix_bits` bits
/// under the high bits `first_byte_mask`, and returns the number of bytes
/// written.
pub fn encode_int(value: u64, prefix_bits: u8, first_byte_mask: u8, buf: &mut [u8]) -> (r: Result<
    usize,
    Error,
>)
    requires
        1 <= prefix_bits <= 8,
    ensures
        r is Ok <==> int_encoding(value, prefix_bits, first_byte_mask).len() <= old(buf)@.len(),
        r is Ok ==> r->Ok_0 == int_encoding(value, prefix_bits, first_byte_mask).len(),
        r is Ok ==> final(buf)@ == splice(
            old(buf)@,
            0,
            int_encoding(value, prefix_bits, first_byte_mask),
        ),
        r is Err ==> r->Err_0 == Error::BufferTooShort && final(buf)@ == old(buf)@,
{
    encode_int_at(value, prefix_bits, first_byte_mask, buf, 0)
}

/// Reads the integer with a prefix of `prefix` bits that starts at
/// `buf[off]`, and returns it with the offset behind its last byte.
pub fn decode_int_at(buf: &[u8], off: usize, prefix: u8) -> (r: Result<(u64, usize), Error>)
    requires
        1 <= prefix <= 8,
    ensures
        match int_decoding(buf@, off as int, prefix) {
            Ok((value, next)) => r is Ok && r->Ok_0.0 == value && r->Ok_0.1 == next && off < next
                <= buf@.len(),
            Err(e) => r is Err && r->Err_0 == e,
        },
{
    proof {
        reveal(int_decoding);
    }
    let len: usize = buf.len();
    let mask: u8 = prefix_mask_of(prefix);
    let first: u8 = match get_u8_at(buf, off) {
        Ok(b) => b,
        Err(e) => {
            return Err(Error::from(e));
        },
    };
    let low: u8 = first & mask;
    if low < mask {
        return Ok((low as u64, off + 1));
    }
    let mut acc: u64 = mask as u64;
    let mut weight: u64 = 1;
    // Set once the weight of the next group no longer fits in a `u64`.
    let mut heavy: bool = false;
    let ghost mut w: nat = 1;
    let mut i: usize = off + 1;
    loop
        invariant
            1 <= prefix <= 8,
            len == buf@.len(),
            off < i <= buf@.len(),
            w >= 1,
            !heavy ==> weight == w,
            heavy ==> w > u64::MAX,
            int_decoding(buf@, off as int, prefix) == int_tail_decoding(
                buf@,
                i as int,
                acc as nat,
                w,
            ),
        decreases buf@.len() - i,
    {
        let b: u8 = match get_u8_at(buf, i) {
            Ok(b) => b,
            Err(e) => {
                return Err(Error::from(e));
            },
        };
        let group: u64 = (b % 128) as u64;
        if group != 0 {
            if heavy {
                proof {
                    lemma_mul_lower_bound(group as nat, w);
                }
                return Err(Error::BufferTooShort);
            }
            let inc: u64 = match group.checked_mul(weight) {
                Some(x) => x,
                None => {
                    return Err(Error::BufferTooShort);
                },
            };
            acc = match acc.checked_add(inc) {
                Some(x) => x,
                None => {
                    return Err(Error::BufferTooShort);
                },
            };
        } else {
            assert((b % 128) * w == 0) by (nonlinear_arith)
                requires
                    b % 128 == 0,
            ;
        }
        if b < 128 {
            return Ok((acc, i + 1));
        }
        if !heavy {
            if weight > u64::MAX / 128 {
                heavy = true;
            } else {
                weight = weight * 128;
            }
        }
        proof {
            w = w * 128;
        }
        i = i + 1;
    }
}

/// Reads the integer with a prefix of `prefix_bits` bits at the start of
/// `buf`, and returns it with the number of bytes it took.
pub fn decode_int(buf: &[u8], prefix_bits: u8) -> (r: Result<(u64, usize), Error>)
    requires
        1 <= prefix_bits <= 8,
    ensures
        match int_decoding(buf@, 0, prefix_bits) {
            Ok((value, next)) => r is Ok && r->Ok_0.0 == value && r->Ok_0.1 == next && 0 < next
                <= buf@.len(),
            Err(e) => r is Err && r->Err_0 == e,
        },
{
    decode_int_at(buf, 0, prefix_bits)
}

proof fn lemma_mul_lower_bound(a: nat, b: nat)
    requires
        a >= 1,
    ensures
        a * b >= b,
{
    assert(a * b >= b) by (nonlinear_arith)
        requires
            a >= 1,
            b >= 0,
    ;
}

/// Low bits that are stored under clear high bits are read back unchanged.
pub proof fn lemma_prefix_bits(first: u8, low: u8, prefix: u8)
    requires
        1 <= prefix <= 8,
        first & prefix_mask(prefix) == 0,
        low <= prefix_mask(prefix),
    ensures
        (first | low) & prefix_mask(prefix) == low,
{
    let mask = prefix_mask(prefix);
    assert((first | low) & mask == low) by (bit_vector)
        requires
            first & mask == 0,
            low <= mask,
            mask == 0x01 || mask == 0x03 || mask == 0x07 || mask == 0x0f || mask == 0x1f || mask
                == 0x3f || mask == 0x7f || mask == 0xff,
    ;
}

/// Continuation bytes are read back as the value they were written for.
pub proof fn lemma_int_tail_round_trip(buf: Seq<u8>, i: int, acc: nat, weight: nat, rest: nat)
    requires
        0 <= i,
        i + int_tail(rest).len() <= buf.len(),
        buf.subrange(i, i + int_tail(rest).len()) == int_tail(rest),
        acc + rest * weight <= u64::MAX,
        weight >= 1,
    ensures
        int_tail_decoding(buf, i, acc, weight) == Ok::<(u64, nat), Error>(
            ((acc + rest * weight) as u64, (i + int_tail(rest).len()) as nat),
        ),
    decreases rest,
{
    let tail = int_tail(rest);
    assert(buf[i] == buf.subrange(i, i + tail.len())[0]);
    if rest < 128 {
        assert(buf[i] == rest as u8);
        assert((buf[i] % 128) * weight == rest * weight);
    } else {
        let next = int_tail(rest / 128);
        assert(tail =~= seq![(rest % 128 + 128) as u8] + next);
        assert(buf[i] == (rest % 128 + 128) as u8);
        assert(buf[i] % 128 == rest % 128);
        let acc2 = acc + ((rest % 128) as nat) * weight;
        assert((rest / 128) * (weight * 128) + (rest % 128) * weight == rest * weight)
            by (nonlinear_arith)
            requires
                rest >= 0,
                weight >= 0,
        ;
        assert((rest / 128) * (weight * 128) >= 0) by (nonlinear_arith)
            requires
                rest >= 0,
                weight >= 0,
        ;
        assert(buf.subrange(i + 1, i + 1 + next.len()) =~= next) by {
            assert forall|j: int| 0 <= j < next.len() implies buf[i + 1 + j] == next[j] by {
                assert(buf[i + 1 + j] == buf.subrange(i, i + tail.len())[1 + j]);
            }
        }
        lemma_int_tail_round_trip(buf, i + 1, acc2, weight * 128, rest / 128);
    }
}

/// Round trip: an integer written at `off` under high bits that leave the
/// prefix clear is read back as itself, and reading ends where the encoding
/// ends, whatever follows it.
pub proof fn lemma_int_round_trip(buf: Seq<u8>, off: int, value: u64, prefix: u8, first: u8)
    requires
        1 <= prefix <= 8,
        first & prefix_mask(prefix) == 0,
        0 <= off,
        off + int_encoding(value, prefix, first).len() <= buf.len(),
        buf.subrange(off, off + int_encoding(value, prefix, first).len()) == int_encoding(
            value,
            prefix,
            first,
        ),
    ensures
        int_decoding(buf, off, prefix) == Ok::<(u64, nat), Error>(
            (value, (off + int_encoding(value, prefix, first).len()) as nat),
        ),
{
    reveal(int_decoding);
    let mask = prefix_mask(prefix);
    let enc = int_encoding(value, prefix, first);
    assert(buf[off] == buf.subrange(off, off + enc.len())[0]);
    if value < mask {
        lemma_prefix_bits(first, value as u8, prefix);
    } else {
        lemma_prefix_bits(first, mask, prefix);
        let rest = (value - mask) as nat;
        let tail = int_tail(rest);
        assert(enc =~= seq![first | mask] + tail);
        assert(buf.subrange(off + 1, off + 1 + tail.len()) =~= tail) by {
            assert forall|j: int| 0 <= j < tail.len() implies buf[off + 1 + j] == tail[j] by {
                assert(buf[off + 1 + j] == buf.subrange(off, off + enc.len())[1 + j]);
            }
        }
        assert(rest * 1 == rest) by (nonlinear_arith);
        lemma_int_tail_round_trip(buf, off + 1, mask as nat, 1, rest);
    }
}

/// An integer that is read ends behind where it begins, within the buffer.
pub proof fn lemma_int_advances(buf: Seq<u8>, off: int, prefix: u8)
    ensures
        match int_decoding(buf, off, prefix) {
            Ok((_, next)) => 0 <= off < next <= buf.len(),
            Err(_) => true,
        },
        off < 0 || off >= buf.len() ==> int_decoding(buf, off, prefix) == Err::<(u64, nat), Error>(
            Error::BufferTooShort,
        ),
{
    reveal(int_decoding);
    if 0 <= off < buf.len() {
        lemma_int_tail_advances(buf, off + 1, prefix_mask(prefix) as nat, 1);
    }
}

proof fn lemma_int_tail_advances(buf: Seq<u8>, i: int, acc: nat, weight: nat)
    ensures
        match int_tail_decoding(buf, i, acc, weight) {
            Ok((_, next)) => 0 <= i < next <= buf.len(),
            Err(_) => true,
        },
    decreases buf.len() - i,
{
    if 0 <= i < buf.len() {
        let acc2 = acc + ((buf[i] % 128) as nat) * weight;
        if acc2 <= u64::MAX && buf[i] >= 128 {
            lemma_int_tail_advances(buf, i + 1, acc2, weight * 128);
        }
    }
}

/// Decoding fails in one way only, whether the buffer ends too early or the
/// value is too large.
pub proof fn lemma_int_decoding_error(buf: Seq<u8>, off: int, prefix: u8)
    ensures
        int_decoding(buf, off, prefix) is Err ==> int_decoding(buf, off, prefix)->Err_0
            == Error::BufferTooShort,
{
    reveal(int_decoding);
    if 0 <= off < buf.len() {
        lemma_int_tail_decoding_error(buf, off + 1, prefix_mask(prefix) as nat, 1);
    }
}

proof fn lemma_int_tail_decoding_error(buf: Seq<u8>, i: int, acc: nat, weight: nat)
    ensures
        int_tail_decoding(buf, i, acc, weight) is Err ==> int_tail_decoding(
            buf,
            i,
            acc,
            weight,
        )->Err_0 == Error::BufferTooShort,
    decreases buf.len() - i,
{
    if 0 <= i < buf.len() {
        let acc2 = acc + ((buf[i] % 128) as nat) * weight;
        if acc2 <= u64::MAX && buf[i] >= 128 {
            lemma_int_tail_decoding_error(buf, i + 1, acc2, weight * 128);
        }
    }
}

/// A continuation whose every byte up to the end of the buffer says that
/// another follows is not decoded.
pub proof fn lemma_int_unterminated(buf: Seq<u8>, off: int, prefix: u8)
    requires
        1 <= prefix <= 8,
        0 <= off < buf.len(),
        buf[off] & prefix_mask(prefix) == prefix_mask(prefix),
        forall|i: int| off < i < buf.len() ==> buf[i] >= 128,
    ensures
        int_decoding(buf, off, prefix) == Err::<(u64, nat), Error>(Error::BufferTooShort),
{
    reveal(int_decoding);
    lemma_int_tail_unterminated(buf, off + 1, prefix_mask(prefix) as nat, 1);
}

proof fn lemma_int_tail_unterminated(buf: Seq<u8>, i: int, acc: nat, weight: nat)
    requires
        0 <= i <= buf.len(),
        forall|j: int| i <= j < buf.len() ==> buf[j] >= 128,
    ensures
        int_tail_decoding(buf, i, acc, weight) == Err::<(u64, nat), Error>(Error::BufferTooShort),
    decreases buf.len() - i,
{
    if i < buf.len() {
        let acc2 = acc + ((buf[i] % 128) as nat) * weight;
        if acc2 <= u64::MAX {
            lemma_int_tail_unterminated(buf, i + 1, acc2, weight * 128);
        }
    }
}

} // verus!
