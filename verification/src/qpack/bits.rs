//! Bit strings, most significant bit first.
use vstd::arithmetic::power2::{lemma_pow2_pos, lemma_pow2_unfold, pow2};
use vstd::prelude::*;

verus! {

/// The lowest `n` bits of `v`, most significant first.
pub open spec fn bits_of(v: nat, n: nat) -> Seq<bool>
    decreases n,
{
    if n == 0 {
        Seq::empty()
    } else {
        bits_of(v / 2, (n - 1) as nat).push(v % 2 == 1)
    }
}

/// The number that the bits `b` spell, most significant first.
pub open spec fn bits_value(b: Seq<bool>) -> nat
    decreases b.len(),
{
    if b.len() == 0 {
        0
    } else {
        2 * bits_value(b.drop_last()) + if b.last() {
            1nat
        } else {
            0nat
        }
    }
}

/// `n` one-bits.
pub open spec fn ones(n: nat) -> Seq<bool> {
    Seq::new(n, |i: int| true)
}

/// The bytes that the bits spell, eight to a byte; bits beyond the last
/// whole byte are left out.
pub open spec fn pack(bits: Seq<bool>) -> Seq<u8> {
    Seq::new(bits.len() / 8, |j: int| bits_value(bits.subrange(8 * j, 8 * j + 8)) as u8)
}

/// The bits of the bytes, eight for each.
pub open spec fn unpack(buf: Seq<u8>) -> Seq<bool> {
    Seq::new(8 * buf.len(), |i: int| bits_of(buf[i / 8] as nat, 8)[i % 8])
}

pub proof fn lemma_bits_of_len(v: nat, n: nat)
    ensures
        bits_of(v, n).len() == n,
    decreases n,
{
    if n > 0 {
        lemma_bits_of_len(v / 2, (n - 1) as nat);
    }
}

/// A bit string spells a number below two to the power of its length.
pub proof fn lemma_bits_value_bound(b: Seq<bool>)
    ensures
        bits_value(b) < pow2(b.len()),
    decreases b.len(),
{
    if b.len() == 0 {
        lemma_pow2_pos(0);
    } else {
        lemma_bits_value_bound(b.drop_last());
        lemma_pow2_unfold(b.len());
    }
}

/// The bits of a number that fits in them spell that number.
pub proof fn lemma_value_of_bits(v: nat, n: nat)
    requires
        v < pow2(n),
    ensures
        bits_value(bits_of(v, n)) == v,
    decreases n,
{
    if n == 0 {
        vstd::arithmetic::power2::lemma2_to64();
    } else {
        lemma_pow2_unfold(n);
        lemma_value_of_bits(v / 2, (n - 1) as nat);
        let b = bits_of(v, n);
        assert(b.drop_last() =~= bits_of(v / 2, (n - 1) as nat));
        lemma_bits_of_len(v, n);
    }
}

/// A bit string is the bits of the number that it spells.
pub proof fn lemma_bits_of_value(b: Seq<bool>)
    ensures
        bits_of(bits_value(b), b.len()) == b,
    decreases b.len(),
{
    if b.len() == 0 {
        assert(bits_of(bits_value(b), b.len()) =~= b);
    } else {
        lemma_bits_of_value(b.drop_last());
        let v = bits_value(b);
        assert(v / 2 == bits_value(b.drop_last()));
        assert((v % 2 == 1) == b.last());
        assert(bits_of(v, b.len()) =~= b);
    }
}

/// Only one-bits spell the largest number of their length.
pub proof fn lemma_all_ones(b: Seq<bool>)
    ensures
        bits_value(b) + 1 == pow2(b.len()) <==> (forall|i: int| 0 <= i < b.len() ==> b[i]),
    decreases b.len(),
{
    if b.len() == 0 {
        vstd::arithmetic::power2::lemma2_to64();
    } else {
        let d = b.drop_last();
        lemma_all_ones(d);
        lemma_bits_value_bound(d);
        lemma_pow2_unfold(b.len());
        if forall|i: int| 0 <= i < b.len() ==> b[i] {
            assert forall|i: int| 0 <= i < d.len() implies d[i] by {
                assert(d[i] == b[i]);
            }
            assert(b.last());
        }
        if bits_value(b) + 1 == pow2(b.len()) {
            assert(b.last());
            assert(bits_value(d) + 1 == pow2(d.len()));
            assert forall|i: int| 0 <= i < b.len() implies b[i] by {
                if i < d.len() {
                    assert(d[i] == b[i]);
                }
            }
        }
    }
}

/// A bit string extended by one bit spells twice the number, plus the bit.
pub proof fn lemma_bits_value_push(b: Seq<bool>, bit: bool)
    ensures
        bits_value(b.push(bit)) == 2 * bits_value(b) + if bit {
            1nat
        } else {
            0nat
        },
{
    assert(b.push(bit).drop_last() =~= b);
}

/// Unpacking bytes undoes packing bits, where the bits fill whole bytes.
pub proof fn lemma_unpack_pack(bits: Seq<bool>)
    requires
        bits.len() % 8 == 0,
    ensures
        unpack(pack(bits)) == bits,
{
    let buf = pack(bits);
    assert forall|i: int| 0 <= i < bits.len() implies unpack(buf)[i] == bits[i] by {
        let j = i / 8;
        let chunk = bits.subrange(8 * j, 8 * j + 8);
        lemma_bits_value_bound(chunk);
        vstd::arithmetic::power2::lemma2_to64();
        lemma_bits_of_value(chunk);
        assert(buf[j] == bits_value(chunk));
        assert(chunk[i % 8] == bits[i]);
    }
    assert(unpack(buf) =~= bits);
}

/// Packing bits undoes unpacking bytes.
pub proof fn lemma_pack_unpack(buf: Seq<u8>)
    ensures
        pack(unpack(buf)) == buf,
{
    let bits = unpack(buf);
    assert forall|j: int| 0 <= j < buf.len() implies pack(bits)[j] == buf[j] by {
        let chunk = bits.subrange(8 * j, 8 * j + 8);
        lemma_bits_of_len(buf[j] as nat, 8);
        assert forall|k: int| 0 <= k < 8 implies chunk[k] == bits_of(buf[j] as nat, 8)[k] by {
            assert(chunk[k] == bits[8 * j + k]);
            assert((8 * j + k) / 8 == j);
            assert((8 * j + k) % 8 == k);
        }
        assert(chunk =~= bits_of(buf[j] as nat, 8));
        vstd::arithmetic::power2::lemma2_to64();
        lemma_value_of_bits(buf[j] as nat, 8);
    }
    assert(pack(bits) =~= buf);
}

/// The bit at place `k` of the lowest `n` bits of `v`, read by a shift.
pub proof fn lemma_bit_by_shift(v: u32, n: nat, k: nat)
    requires
        k < n <= 32,
    ensures
        bits_of(v as nat, n).len() == n,
        bits_of(v as nat, n)[k as int] == ((v >> ((n - 1 - k) as u32)) & 1 == 1),
    decreases n,
{
    lemma_bits_of_len(v as nat, n);
    if k == n - 1 {
        assert((v % 2 == 1) == ((v >> 0u32) & 1 == 1)) by (bit_vector);
    } else {
        let half: u32 = v / 2;
        lemma_bit_by_shift(half, (n - 1) as nat, k);
        lemma_bits_of_len(half as nat, (n - 1) as nat);
        let sh: u32 = (n - 2 - k) as u32;
        assert(((v / 2) >> sh) == (v >> ((sh + 1) as u32))) by (bit_vector)
            requires
                sh < 31,
        ;
    }
}

/// The bit at place `k`, counted from the most significant end, of the
/// lowest `n` bits of `v`.
pub fn bit_at(v: u32, n: u8, k: u8) -> (r: bool)
    requires
        k < n <= 32,
    ensures
        r == bits_of(v as nat, n as nat)[k as int],
{
    proof {
        lemma_bit_by_shift(v, n as nat, k as nat);
    }
    let sh: u32 = (n - 1 - k) as u32;
    (v >> sh) & 1 == 1
}

} // verus!
