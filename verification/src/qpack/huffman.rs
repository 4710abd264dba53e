//! The Huffman codec for header strings.
//!
//! A string is coded symbol by symbol, each byte by its code from the fixed
//! table, most significant bit first. The last byte is filled up with
//! one-bits: fewer than eight of them, which spell no symbol's code.
use super::bits::{
    bit_at, bits_of, bits_value, lemma_all_ones, lemma_bits_of_len, lemma_bits_of_value,
    lemma_bits_value_bound, lemma_bits_value_push, lemma_pack_unpack, lemma_unpack_pack,
    lemma_value_of_bits, ones, pack, unpack,
};
use super::error::Error;
use super::huffman_table::{
    code_len, code_limit, code_of, first_code, first_rank, lemma_canonical, lemma_len_of_rank,
    lemma_rank_symbol_inverse, rank_of, symbol_of, FIRST_CODE, FIRST_RANK, RANKS, SYMBOLS,
};
use vstd::arithmetic::power2::pow2;
use vstd::prelude::*;

verus! {

/// The code of `s`, as bits.
pub open spec fn symbol_bits(s: u8) -> Seq<bool> {
    bits_of(code_of(s), code_len(s))
}

/// The codes of the bytes of `data`, one after the other.
pub open spec fn message_bits(data: Seq<u8>) -> Seq<bool>
    decreases data.len(),
{
    if data.len() == 0 {
        Seq::empty()
    } else {
        message_bits(data.drop_last()) + symbol_bits(data.last())
    }
}

/// The number of bits that fill `nbits` bits up to whole bytes.
pub open spec fn pad_len(nbits: nat) -> nat {
    ((8 - nbits % 8) % 8) as nat
}

/// The Huffman form of `data`: its codes, filled up with one-bits to whole
/// bytes.
pub open spec fn huffman_encoding(data: Seq<u8>) -> Seq<u8> {
    let bits = message_bits(data);
    pack(bits + ones(pad_len(bits.len())))
}

/// Whether `bits` begins with the code of `s`.
pub open spec fn symbol_at(bits: Seq<bool>, s: u8) -> bool {
    code_len(s) <= bits.len() && bits.subrange(0, code_len(s) as int) == symbol_bits(s)
}

/// Whether `bits` can end a coded string: fewer than eight bits, all ones.
pub open spec fn is_padding(bits: Seq<bool>) -> bool {
    bits.len() < 8 && forall|i: int| 0 <= i < bits.len() ==> bits[i]
}

/// The string that `bits` codes: a run of codes followed by padding. `None`
/// where the bits are no such run.
#[verifier::opaque]
pub open spec fn bits_decoding(bits: Seq<bool>) -> Option<Seq<u8>>
    decreases bits.len(),
{
    if is_padding(bits) {
        Some(Seq::empty())
    } else if exists|s: u8| symbol_at(bits, s) {
        let s = choose|s: u8| symbol_at(bits, s);
        match bits_decoding(bits.skip(code_len(s) as int)) {
            Some(rest) => Some(seq![s] + rest),
            None => None,
        }
    } else {
        None
    }
}

/// The string of which `buf` is the Huffman form, `None` where it is none.
pub open spec fn huffman_decoding(buf: Seq<u8>) -> Option<Seq<u8>> {
    bits_decoding(unpack(buf))
}

/// What holds of every symbol's code: its length, its range, and that its
/// bits spell it.
pub proof fn lemma_symbol_code(s: u8)
    ensures
        5 <= code_len(s) <= 30,
        first_code(code_len(s)) <= code_of(s) < code_limit(code_len(s)),
        code_of(s) < pow2(code_len(s)),
        symbol_bits(s).len() == code_len(s),
        bits_value(symbol_bits(s)) == code_of(s),
{
    lemma_rank_symbol_inverse();
    lemma_len_of_rank(rank_of(s));
    lemma_canonical(code_len(s));
    lemma_bits_of_len(code_of(s), code_len(s));
    lemma_value_of_bits(code_of(s), code_len(s));
}

/// Every number in the range of codes of a length is the code of a symbol,
/// found by its rank.
pub proof fn lemma_symbol_from_code(l: nat, c: nat)
    requires
        l <= 30,
        first_code(l) <= c < code_limit(l),
    ensures
        first_rank(l) + c - first_code(l) < 256,
        code_len(symbol_of((first_rank(l) + c - first_code(l)) as nat)) == l,
        code_of(symbol_of((first_rank(l) + c - first_code(l)) as nat)) == c,
{
    let r = (first_rank(l) + c - first_code(l)) as nat;
    lemma_canonical(l);
    lemma_rank_symbol_inverse();
    assert(rank_of(symbol_of(r)) == r);
    lemma_len_of_rank(r);
}

/// Two symbols with the same code are the same symbol.
pub proof fn lemma_same_code(s1: u8, s2: u8)
    requires
        code_len(s1) == code_len(s2),
        code_of(s1) == code_of(s2),
    ensures
        s1 == s2,
{
    lemma_rank_symbol_inverse();
    lemma_symbol_code(s1);
    lemma_symbol_code(s2);
    assert(rank_of(s1) == rank_of(s2));
    assert(symbol_of(rank_of(s1)) == s1);
    assert(symbol_of(rank_of(s2)) == s2);
}

/// Bits that start below the limit of their length stay below the first
/// code of every greater length: no code continues them.
pub proof fn lemma_below_limit(b: Seq<bool>, m: nat, j: nat)
    requires
        m <= j <= b.len(),
        j <= 30,
        bits_value(b.subrange(0, m as int)) < code_limit(m),
    ensures
        j > m ==> bits_value(b.subrange(0, j as int)) < first_code(j),
    decreases j - m,
{
    if j > m {
        let k = (j - 1) as nat;
        lemma_below_limit(b, m, k);
        lemma_canonical(k);
        assert(b.subrange(0, j as int) =~= b.subrange(0, k as int).push(b[k as int]));
        lemma_bits_value_push(b.subrange(0, k as int), b[k as int]);
    }
}

/// The code is prefix free: bits begin with the code of one symbol at most.
pub proof fn lemma_prefix_free(bits: Seq<bool>, s1: u8, s2: u8)
    requires
        symbol_at(bits, s1),
        symbol_at(bits, s2),
    ensures
        s1 == s2,
{
    lemma_symbol_code(s1);
    lemma_symbol_code(s2);
    let l1 = code_len(s1);
    let l2 = code_len(s2);
    if l1 == l2 {
        lemma_same_code(s1, s2);
    } else if l1 < l2 {
        let b = symbol_bits(s2);
        assert(b.subrange(0, l1 as int) =~= bits.subrange(0, l1 as int));
        assert(b.subrange(0, l2 as int) =~= b);
        lemma_below_limit(b, l1, l2);
    } else {
        let b = symbol_bits(s1);
        assert(b.subrange(0, l2 as int) =~= bits.subrange(0, l2 as int));
        assert(b.subrange(0, l1 as int) =~= b);
        lemma_below_limit(b, l2, l1);
    }
}

/// No code is made of one-bits only, so padding begins with no code.
pub proof fn lemma_padding_is_no_symbol(bits: Seq<bool>, s: u8)
    requires
        symbol_at(bits, s),
    ensures
        !(forall|i: int| 0 <= i < code_len(s) ==> bits[i]),
        !is_padding(bits),
{
    lemma_symbol_code(s);
    let b = symbol_bits(s);
    lemma_all_ones(b);
    lemma_canonical(code_len(s));
    if forall|i: int| 0 <= i < code_len(s) ==> bits[i] {
        assert forall|i: int| 0 <= i < b.len() implies b[i] by {
            assert(b[i] == bits.subrange(0, code_len(s) as int)[i]);
        }
        assert(false);
    }
}

/// The bits that begin with the code of `s` decode to `s`, followed by what
/// the bits behind the code decode to.
pub proof fn lemma_decoding_step(bits: Seq<bool>, s: u8)
    requires
        symbol_at(bits, s),
    ensures
        bits_decoding(bits) == match bits_decoding(bits.skip(code_len(s) as int)) {
            Some(rest) => Some(seq![s] + rest),
            None => None,
        },
{
    reveal(bits_decoding);
    lemma_padding_is_no_symbol(bits, s);
    let chosen = choose|s: u8| symbol_at(bits, s);
    lemma_prefix_free(bits, s, chosen);
}

/// Padding decodes to the empty string.
pub proof fn lemma_decoding_padding(bits: Seq<bool>)
    requires
        is_padding(bits),
    ensures
        bits_decoding(bits) == Some(Seq::<u8>::empty()),
{
    reveal(bits_decoding);
}

/// Bits that are no padding and begin with no code decode to nothing.
pub proof fn lemma_decoding_none(bits: Seq<bool>)
    requires
        !is_padding(bits),
        forall|s: u8| !symbol_at(bits, s),
    ensures
        bits_decoding(bits) is None,
{
    reveal(bits_decoding);
}

/// Bits that decode to a string are padding, or begin with a code.
pub proof fn lemma_decoding_cases(bits: Seq<bool>)
    requires
        bits_decoding(bits) is Some,
    ensures
        is_padding(bits) || exists|s: u8| symbol_at(bits, s),
{
    reveal(bits_decoding);
}

/// The codes of a string extended by one byte are its codes followed by the
/// byte's.
pub proof fn lemma_message_bits_push(data: Seq<u8>, s: u8)
    ensures
        message_bits(data.push(s)) == message_bits(data) + symbol_bits(s),
{
    assert(data.push(s).drop_last() =~= data);
}

/// The Huffman form of a string has as many bytes as its codes need.
pub proof fn lemma_huffman_encoding_len(data: Seq<u8>)
    ensures
        huffman_encoding(data).len() == (message_bits(data).len() + 7) / 8,
{
}

/// The code of `s` and its length in bits.
pub fn symbol_code(s: u8) -> (r: (u32, u8))
    ensures
        r.0 == code_of(s),
        r.1 == code_len(s),
        5 <= r.1 <= 30,
{
    let rank: u8 = RANKS[s as usize];
    proof {
        lemma_symbol_code(s);
        lemma_len_of_rank(rank as nat);
    }
    let mut len: usize = 5;
    while FIRST_RANK[len + 1] <= rank as u16
        invariant
            5 <= len <= 30,
            first_rank(len as nat) <= rank,
            rank == rank_of(s),
            len <= code_len(s) <= 30,
            first_rank(code_len(s)) <= rank < first_rank(code_len(s) + 1),
        decreases 30 - len,
    {
        proof {
            lemma_rank_order(len as nat, code_len(s));
        }
        len = len + 1;
    }
    proof {
        lemma_len_of_rank(rank as nat);
    }
    let code: u32 = FIRST_CODE[len] + (rank as u32 - FIRST_RANK[len] as u32);
    (code, len as u8)
}

/// A later length starts at a rank that is no lower.
proof fn lemma_rank_order(a: nat, b: nat)
    requires
        a <= b <= 31,
    ensures
        first_rank(a) <= first_rank(b),
    decreases b - a,
{
    if a < b {
        lemma_canonical((b - 1) as nat);
        lemma_rank_order(a, (b - 1) as nat);
    }
}

/// The number of bytes of the Huffman form of `data`, where that form is
/// shorter than `data` itself; `InflatedHuffmanEncoding` where it is not.
pub fn huffman_encoded_len(data: &[u8]) -> (r: Result<usize, Error>)
    ensures
        r is Ok <==> huffman_encoding(data@).len() < data@.len(),
        r is Ok ==> r->Ok_0 == huffman_encoding(data@).len(),
        r is Err ==> r->Err_0 == Error::InflatedHuffmanEncoding,
{
    let n: usize = data.len();
    let mut nbits: u128 = 0;
    let mut i: usize = 0;
    while i < n
        invariant
            n == data@.len(),
            i <= n,
            nbits == message_bits(data@.subrange(0, i as int)).len(),
            nbits <= 30 * i,
        decreases n - i,
    {
        let (_, len) = symbol_code(data[i]);
        proof {
            lemma_symbol_code(data@[i as int]);
            lemma_message_bits_push(data@.subrange(0, i as int), data@[i as int]);
            assert(data@.subrange(0, i + 1) =~= data@.subrange(0, i as int).push(data@[i as int]));
        }
        nbits = nbits + len as u128;
        i = i + 1;
    }
    proof {
        assert(data@.subrange(0, n as int) =~= data@);
        lemma_huffman_encoding_len(data@);
    }
    let nbytes: u128 = (nbits + 7) / 8;
    if nbytes >= n as u128 {
        Err(Error::InflatedHuffmanEncoding)
    } else {
        Ok(nbytes as usize)
    }
}

/// `out`, `acc` and `nacc` hold `bits`: the whole bytes are in `out`, the
/// `nacc` bits behind them in `acc`.
spec fn holds_bits(out: Seq<u8>, acc: u8, nacc: u8, bits: Seq<bool>) -> bool {
    &&& nacc < 8
    &&& bits.len() == 8 * out.len() + nacc
    &&& out == pack(bits)
    &&& acc == bits_value(bits.skip(8 * (out.len() as int)))
}

/// Appends one bit to the bits held.
fn push_bit(out: &mut Vec<u8>, acc: &mut u8, nacc: &mut u8, bit: bool, Ghost(bits): Ghost<Seq<bool>>)
    requires
        holds_bits(old(out)@, *old(acc), *old(nacc), bits),
    ensures
        holds_bits(final(out)@, *final(acc), *final(nacc), bits.push(bit)),
{
    let ghost tail = bits.skip(8 * (out@.len() as int));
    let ghost m = out@.len() as int;
    let ghost bits2 = bits.push(bit);
    proof {
        lemma_bits_value_bound(tail);
        vstd::arithmetic::power2::lemma2_to64();
        lemma_bits_value_push(tail, bit);
        assert(bits2.skip(8 * m) =~= tail.push(bit));
    }
    let next: u8 = 2 * *acc + if bit {
        1
    } else {
        0
    };
    if *nacc == 7 {
        out.push(next);
        *acc = 0;
        *nacc = 0;
        proof {
            assert(bits2.subrange(8 * m, 8 * m + 8) =~= tail.push(bit));
            assert forall|j: int| 0 <= j < m + 1 implies out@[j] == pack(bits2)[j] by {
                if j < m {
                    assert(bits2.subrange(8 * j, 8 * j + 8) =~= bits.subrange(8 * j, 8 * j + 8));
                    assert(out@[j] == pack(bits)[j]);
                }
            }
            assert(out@ =~= pack(bits2));
            assert(bits2.skip(8 * (m + 1)) =~= Seq::<bool>::empty());
        }
    } else {
        *acc = next;
        *nacc = *nacc + 1;
        proof {
            assert forall|j: int| 0 <= j < m implies out@[j] == pack(bits2)[j] by {
                assert(bits2.subrange(8 * j, 8 * j + 8) =~= bits.subrange(8 * j, 8 * j + 8));
                assert(out@[j] == pack(bits)[j]);
            }
            assert(out@ =~= pack(bits2));
        }
    }
}

/// The Huffman form of `data`, where it is shorter than `data` itself;
/// `InflatedHuffmanEncoding` where it is not.
pub fn huffman_encode(data: &[u8]) -> (r: Result<Vec<u8>, Error>)
    ensures
        r is Ok <==> huffman_encoding(data@).len() < data@.len(),
        r is Ok ==> r->Ok_0@ == huffman_encoding(data@),
        r is Err ==> r->Err_0 == Error::InflatedHuffmanEncoding,
{
    match huffman_encoded_len(data) {
        Ok(_) => {},
        Err(e) => {
            return Err(e);
        },
    }
    let n: usize = data.len();
    let mut out: Vec<u8> = Vec::new();
    let mut acc: u8 = 0;
    let mut nacc: u8 = 0;
    let ghost mut bits: Seq<bool> = Seq::empty();
    let mut i: usize = 0;
    proof {
        assert(bits.skip(0) =~= bits);
        assert(out@ =~= pack(bits));
        assert(message_bits(data@.subrange(0, 0)) =~= bits);
    }
    while i < n
        invariant
            n == data@.len(),
            i <= n,
            holds_bits(out@, acc, nacc, bits),
            bits == message_bits(data@.subrange(0, i as int)),
        decreases n - i,
    {
        let (code, len) = symbol_code(data[i]);
        let ghost sym = data@[i as int];
        let ghost before = bits;
        let mut k: u8 = 0;
        proof {
            lemma_symbol_code(sym);
            assert(bits =~= before + symbol_bits(sym).subrange(0, 0));
        }
        while k < len
            invariant
                k <= len,
                len == code_len(sym),
                code == code_of(sym),
                5 <= len <= 30,
                symbol_bits(sym).len() == len,
                holds_bits(out@, acc, nacc, bits),
                bits == before + symbol_bits(sym).subrange(0, k as int),
            decreases len - k,
        {
            let bit = bit_at(code, len, k);
            push_bit(&mut out, &mut acc, &mut nacc, bit, Ghost(bits));
            proof {
                assert(before + symbol_bits(sym).subrange(0, k + 1) =~= bits.push(bit));
                bits = bits.push(bit);
            }
            k = k + 1;
        }
        proof {
            assert(symbol_bits(sym).subrange(0, len as int) =~= symbol_bits(sym));
            lemma_message_bits_push(data@.subrange(0, i as int), sym);
            assert(data@.subrange(0, i + 1) =~= data@.subrange(0, i as int).push(sym));
        }
        i = i + 1;
    }
    let ghost coded = bits;
    let ghost mut npad: nat = 0;
    proof {
        assert(data@.subrange(0, n as int) =~= data@);
        assert(bits =~= coded + ones(0));
    }
    while nacc != 0
        invariant
            holds_bits(out@, acc, nacc, bits),
            bits == coded + ones(npad),
            coded.len() % 8 == 0 ==> npad == 0,
            coded.len() % 8 > 0 ==> coded.len() % 8 + npad <= 8,
        decreases 8 - npad,
    {
        push_bit(&mut out, &mut acc, &mut nacc, true, Ghost(bits));
        proof {
            assert(coded + ones(npad + 1) =~= bits.push(true));
            bits = bits.push(true);
            npad = npad + 1;
        }
    }
    proof {
        assert(npad == pad_len(coded.len()));
    }
    Ok(out)
}

/// `r` with `pre` in front, where there is an `r`.
pub open spec fn prepend(pre: Seq<u8>, r: Option<Seq<u8>>) -> Option<Seq<u8>> {
    match r {
        Some(rest) => Some(pre + rest),
        None => None,
    }
}

/// The state of a scan of `bits`: the bits before `start` were codes and
/// gave `decoded`; the bits from `start` up to `p` spell `code` and are, so
/// far, no symbol's code.
spec fn scanning(bits: Seq<bool>, start: int, p: int, code: nat, decoded: Seq<u8>) -> bool {
    &&& 0 <= start <= p <= bits.len()
    &&& p - start <= 29
    &&& bits_decoding(bits) == prepend(decoded, bits_decoding(bits.skip(start)))
    &&& code == bits_value(bits.subrange(start, p))
    &&& forall|s: u8| code_len(s) <= p - start ==> !symbol_at(bits.skip(start), s)
    &&& p - start >= 1 ==> code >= code_limit((p - start) as nat)
}

proof fn lemma_scan_start(bits: Seq<bool>)
    ensures
        scanning(bits, 0, 0, 0, Seq::empty()),
{
    assert(bits.skip(0) =~= bits);
    assert(bits.subrange(0, 0) =~= Seq::<bool>::empty());
    match bits_decoding(bits) {
        Some(rest) => {
            assert(Seq::<u8>::empty() + rest =~= rest);
        },
        None => {},
    }
    assert forall|s: u8| code_len(s) <= 0 implies !symbol_at(bits.skip(0), s) by {
        lemma_symbol_code(s);
    }
}

/// The number spelled once the bit at `p` has been read.
spec fn next_code(code: nat, bit: bool) -> nat {
    2 * code + if bit {
        1nat
    } else {
        0nat
    }
}

proof fn lemma_scan_bounds(bits: Seq<bool>, start: int, p: int, code: nat, decoded: Seq<u8>)
    requires
        scanning(bits, start, p, code, decoded),
        p < bits.len(),
    ensures
        next_code(code, bits[p]) == bits_value(bits.subrange(start, p + 1)),
        next_code(code, bits[p]) < 0x4000_0000,
        code < 0x2000_0000,
        first_code((p - start + 1) as nat) <= next_code(code, bits[p]),
        first_code((p - start + 1) as nat) <= code_limit((p - start + 1) as nat) < 0x4000_0000,
        first_rank((p - start + 1) as nat) <= first_rank((p - start + 2) as nat) <= 256,
{
    let len = (p - start) as nat;
    let seen = bits.subrange(start, p);
    assert(bits.subrange(start, p + 1) =~= seen.push(bits[p]));
    lemma_bits_value_push(seen, bits[p]);
    lemma_bits_value_bound(seen);
    vstd::arithmetic::power2::lemma2_to64();
    if len < 29 {
        vstd::arithmetic::power2::lemma_pow2_strictly_increases(len, 29);
    }
    lemma_canonical(len);
    lemma_canonical(len + 1);
    if len + 1 < 30 {
        vstd::arithmetic::power2::lemma_pow2_strictly_increases(len + 1, 30);
    }
}

proof fn lemma_scan_match(bits: Seq<bool>, start: int, p: int, code: nat, decoded: Seq<u8>)
    requires
        scanning(bits, start, p, code, decoded),
        p < bits.len(),
        next_code(code, bits[p]) < code_limit((p - start + 1) as nat),
    ensures
        first_rank((p - start + 1) as nat) + next_code(code, bits[p]) - first_code(
            (p - start + 1) as nat,
        ) < 256,
        scanning(
            bits,
            p + 1,
            p + 1,
            0,
            decoded.push(
                symbol_of(
                    (first_rank((p - start + 1) as nat) + next_code(code, bits[p]) - first_code(
                        (p - start + 1) as nat,
                    )) as nat,
                ),
            ),
        ),
{
    let len2 = (p - start + 1) as nat;
    let code2 = next_code(code, bits[p]);
    lemma_scan_bounds(bits, start, p, code, decoded);
    lemma_symbol_from_code(len2, code2);
    let sym = symbol_of((first_rank(len2) + code2 - first_code(len2)) as nat);
    let rest = bits.skip(start);
    let seen = bits.subrange(start, p + 1);
    assert(symbol_at(rest, sym)) by {
        lemma_symbol_code(sym);
        lemma_bits_of_value(seen);
        assert(seen =~= rest.subrange(0, len2 as int));
    }
    lemma_scan_advance(bits, start, decoded, sym);
}

/// The scan goes on behind a code that was found.
proof fn lemma_scan_advance(bits: Seq<bool>, start: int, decoded: Seq<u8>, sym: u8)
    requires
        0 <= start <= bits.len(),
        bits_decoding(bits) == prepend(decoded, bits_decoding(bits.skip(start))),
        symbol_at(bits.skip(start), sym),
    ensures
        scanning(
            bits,
            start + code_len(sym),
            start + code_len(sym),
            0,
            decoded.push(sym),
        ),
{
    let rest = bits.skip(start);
    let next = start + code_len(sym);
    lemma_symbol_code(sym);
    lemma_decoding_step(rest, sym);
    assert(rest.skip(code_len(sym) as int) =~= bits.skip(next));
    match bits_decoding(bits.skip(next)) {
        Some(tail) => {
            assert(decoded + (seq![sym] + tail) =~= decoded.push(sym) + tail);
        },
        None => {},
    }
    assert(bits.subrange(next, next) =~= Seq::<bool>::empty());
    assert forall|s: u8| code_len(s) <= 0 implies !symbol_at(bits.skip(next), s) by {
        lemma_symbol_code(s);
    }
}

proof fn lemma_scan_miss(bits: Seq<bool>, start: int, p: int, code: nat, decoded: Seq<u8>)
    requires
        scanning(bits, start, p, code, decoded),
        p < bits.len(),
        next_code(code, bits[p]) >= code_limit((p - start + 1) as nat),
    ensures
        p - start + 1 < 30 ==> scanning(bits, start, p + 1, next_code(code, bits[p]), decoded),
        p - start + 1 == 30 ==> bits_decoding(bits) is None,
{
    let len2 = (p - start + 1) as nat;
    let code2 = next_code(code, bits[p]);
    lemma_scan_bounds(bits, start, p, code, decoded);
    let rest = bits.skip(start);
    let seen = bits.subrange(start, p + 1);
    assert(seen =~= rest.subrange(0, len2 as int));
    assert forall|s: u8| code_len(s) <= len2 implies !symbol_at(rest, s) by {
        if code_len(s) == len2 && symbol_at(rest, s) {
            lemma_symbol_code(s);
        }
    }
    if len2 == 30 {
        assert forall|s: u8| !symbol_at(rest, s) by {
            lemma_symbol_code(s);
        }
        assert(rest.len() >= 30);
        assert(!is_padding(rest));
        lemma_decoding_none(rest);
    }
}

proof fn lemma_scan_end(bits: Seq<bool>, start: int, code: nat, decoded: Seq<u8>)
    requires
        scanning(bits, start, bits.len() as int, code, decoded),
    ensures
        bits.len() - start < 8 && code + 1 == pow2((bits.len() - start) as nat)
            ==> bits_decoding(bits) == Some(decoded),
        !(bits.len() - start < 8 && code + 1 == pow2((bits.len() - start) as nat))
            ==> bits_decoding(bits) is None,
{
    let rest = bits.skip(start);
    assert(bits.subrange(start, bits.len() as int) =~= rest);
    lemma_all_ones(rest);
    if rest.len() < 8 && code + 1 == pow2(rest.len()) {
        assert(is_padding(rest));
        lemma_decoding_padding(rest);
        assert(decoded + Seq::<u8>::empty() =~= decoded);
    } else {
        assert(!is_padding(rest));
        assert forall|s: u8| !symbol_at(rest, s) by {
            lemma_symbol_code(s);
        }
        lemma_decoding_none(rest);
    }
}

/// The string of which `buf` is the Huffman form.
///
/// Fails with `InvalidHuffmanEncoding` where `buf` is the Huffman form of no
/// string, and with `HeaderListTooLarge` where the string has more than
/// `max_len` bytes; no more than `max_len` bytes are ever stored.
pub fn huffman_decode(buf: &[u8], max_len: u64) -> (r: Result<Vec<u8>, Error>)
    ensures
        match huffman_decoding(buf@) {
            None => r == Err::<Vec<u8>, Error>(Error::InvalidHuffmanEncoding),
            Some(data) => if data.len() <= max_len {
                r is Ok && r->Ok_0@ == data
            } else {
                r == Err::<Vec<u8>, Error>(Error::HeaderListTooLarge)
            },
        },
{
    let n: usize = buf.len();
    let ghost bits = unpack(buf@);
    let mut out: Vec<u8> = Vec::new();
    // Set once a symbol arrived that `out` had no room for.
    let mut over: bool = false;
    let ghost mut decoded: Seq<u8> = Seq::empty();
    let ghost mut start: int = 0;
    let mut code: u32 = 0;
    let mut len: u8 = 0;
    let mut idx: usize = 0;
    let mut k: u8 = 0;
    proof {
        lemma_scan_start(bits);
    }
    while idx < n
        invariant
            n == buf@.len(),
            bits == unpack(buf@),
            idx <= n,
            k < 8,
            idx == n ==> k == 0,
            len == 8 * idx + k - start,
            scanning(bits, start, 8 * idx + k, code as nat, decoded),
            !over ==> out@ == decoded,
            over ==> decoded.len() > max_len,
            out@.len() <= max_len,
        decreases 8 * (n - idx) - k,
    {
        let ghost p: int = 8 * idx + k;
        let bit = bit_at(buf[idx] as u32, 8, k);
        proof {
            assert(p / 8 == idx as int && p % 8 == k as int);
            assert(bits[p] == bit);
            lemma_scan_bounds(bits, start, p, code as nat, decoded);
        }
        let code2: u32 = 2 * code + if bit {
            1
        } else {
            0
        };
        let len2: usize = len as usize + 1;
        let limit: u32 = FIRST_CODE[len2] + (FIRST_RANK[len2 + 1] - FIRST_RANK[len2]) as u32;
        if k == 7 {
            idx = idx + 1;
            k = 0;
        } else {
            k = k + 1;
        }
        if code2 < limit {
            proof {
                lemma_scan_match(bits, start, p, code as nat, decoded);
            }
            let rank: u32 = FIRST_RANK[len2] as u32 + (code2 - FIRST_CODE[len2]);
            let sym: u8 = SYMBOLS[rank as usize];
            if !over {
                if (out.len() as u64) < max_len {
                    out.push(sym);
                } else {
                    over = true;
                }
            }
            proof {
                decoded = decoded.push(sym);
                start = p + 1;
            }
            code = 0;
            len = 0;
        } else {
            proof {
                lemma_scan_miss(bits, start, p, code as nat, decoded);
            }
            if len2 == 30 {
                return Err(Error::InvalidHuffmanEncoding);
            }
            code = code2;
            len = len2 as u8;
        }
    }
    proof {
        lemma_scan_end(bits, start, code as nat, decoded);
        lemma_bits_value_bound(bits.subrange(start, 8 * n));
        vstd::arithmetic::power2::lemma2_to64();
        if len < 29 {
            vstd::arithmetic::power2::lemma_pow2_strictly_increases(len as nat, 29);
        }
    }
    if !(len < 8 && code + 1 == pow2_u32(len)) {
        return Err(Error::InvalidHuffmanEncoding);
    }
    if over {
        return Err(Error::HeaderListTooLarge);
    }
    Ok(out)
}

/// Two to the power of `e`, for an exponent below eight.
fn pow2_u32(e: u8) -> (r: u32)
    requires
        e < 8,
    ensures
        r == pow2(e as nat),
{
    proof {
        vstd::arithmetic::power2::lemma2_to64();
    }
    if e == 0 {
        1
    } else if e == 1 {
        2
    } else if e == 2 {
        4
    } else if e == 3 {
        8
    } else if e == 4 {
        16
    } else if e == 5 {
        32
    } else if e == 6 {
        64
    } else {
        128
    }
}

/// The codes of a string are the code of its first byte followed by the
/// codes of the rest.
pub proof fn lemma_message_bits_front(data: Seq<u8>)
    requires
        data.len() > 0,
    ensures
        message_bits(data) == symbol_bits(data[0]) + message_bits(data.skip(1)),
    decreases data.len(),
{
    if data.len() == 1 {
        assert(data.drop_last() =~= Seq::<u8>::empty());
        assert(data.skip(1) =~= Seq::<u8>::empty());
        assert(message_bits(data) =~= symbol_bits(data[0]) + message_bits(data.skip(1)));
    } else {
        let init = data.drop_last();
        lemma_message_bits_front(init);
        assert(init.skip(1) =~= data.skip(1).drop_last());
        assert(message_bits(data) =~= symbol_bits(data[0]) + message_bits(data.skip(1)));
    }
}

/// The codes of a string, followed by fewer than eight one-bits, decode to
/// the string.
pub proof fn lemma_bits_round_trip(data: Seq<u8>, pad: nat)
    requires
        pad < 8,
    ensures
        bits_decoding(message_bits(data) + ones(pad)) == Some(data),
    decreases data.len(),
{
    let bits = message_bits(data) + ones(pad);
    if data.len() == 0 {
        assert(is_padding(bits));
        lemma_decoding_padding(bits);
        assert(data =~= Seq::<u8>::empty());
    } else {
        let s = data[0];
        let tail = data.skip(1);
        lemma_message_bits_front(data);
        lemma_symbol_code(s);
        assert(bits.subrange(0, code_len(s) as int) =~= symbol_bits(s));
        assert(symbol_at(bits, s));
        lemma_decoding_step(bits, s);
        assert(bits.skip(code_len(s) as int) =~= message_bits(tail) + ones(pad));
        lemma_bits_round_trip(tail, pad);
        assert(seq![s] + tail =~= data);
    }
}

/// Round trip: the Huffman form of a string is the Huffman form of that
/// string and of no other.
pub proof fn lemma_huffman_round_trip(data: Seq<u8>)
    ensures
        huffman_decoding(huffman_encoding(data)) == Some(data),
{
    let bits = message_bits(data);
    let padded = bits + ones(pad_len(bits.len()));
    lemma_unpack_pack(padded);
    lemma_bits_round_trip(data, pad_len(bits.len()));
}

/// Bits that decode to a string are the codes of that string, followed by
/// fewer than eight one-bits.
pub proof fn lemma_decoded_bits(bits: Seq<bool>, data: Seq<u8>)
    requires
        bits_decoding(bits) == Some(data),
    ensures
        message_bits(data).len() <= bits.len() < message_bits(data).len() + 8,
        bits == message_bits(data) + ones((bits.len() - message_bits(data).len()) as nat),
    decreases bits.len(),
{
    if is_padding(bits) {
        lemma_decoding_padding(bits);
        assert(data =~= Seq::<u8>::empty());
        assert(bits =~= message_bits(data) + ones(bits.len()));
    } else {
        lemma_decoding_cases(bits);
        let s = choose|s: u8| symbol_at(bits, s);
        let n = code_len(s) as int;
        let rest = bits.skip(n);
        lemma_decoding_step(bits, s);
        assert(bits_decoding(rest) is Some);
        let tail = bits_decoding(rest)->Some_0;
        assert(data == seq![s] + tail);
        lemma_symbol_code(s);
        lemma_decoded_bits(rest, tail);
        let k = (rest.len() - message_bits(tail).len()) as nat;
        assert(data[0] == s);
        assert(data.skip(1) =~= tail);
        lemma_message_bits_front(data);
        lemma_split_at_symbol(bits, s);
        lemma_concat_assoc(symbol_bits(s), message_bits(tail), ones(k));
    }
}

proof fn lemma_split_at_symbol(bits: Seq<bool>, s: u8)
    requires
        symbol_at(bits, s),
    ensures
        bits == symbol_bits(s) + bits.skip(code_len(s) as int),
{
    assert(bits =~= bits.subrange(0, code_len(s) as int) + bits.skip(code_len(s) as int));
}

proof fn lemma_concat_assoc(a: Seq<bool>, b: Seq<bool>, c: Seq<bool>)
    ensures
        (a + b) + c == a + (b + c),
        ((a + b) + c).len() == a.len() + b.len() + c.len(),
{
    assert((a + b) + c =~= a + (b + c));
}

/// Bytes decode to a string only where they are its Huffman form: a coded
/// string cannot be changed, cut or extended and still decode to the same
/// string.
pub proof fn lemma_huffman_decoding_is_exact(buf: Seq<u8>, data: Seq<u8>)
    requires
        huffman_decoding(buf) == Some(data),
    ensures
        buf == huffman_encoding(data),
{
    let bits = unpack(buf);
    lemma_decoded_bits(bits, data);
    lemma_pack_unpack(buf);
    let coded = message_bits(data);
    assert((bits.len() - coded.len()) as nat == pad_len(coded.len()));
}

/// Two buffers that decode to the same string are the same buffer: a coded
/// string with a bit changed decodes to another string or to none.
pub proof fn lemma_huffman_decoding_injective(a: Seq<u8>, b: Seq<u8>)
    requires
        huffman_decoding(a) is Some,
        huffman_decoding(a) == huffman_decoding(b),
    ensures
        a == b,
{
    lemma_huffman_decoding_is_exact(a, huffman_decoding(a)->Some_0);
    lemma_huffman_decoding_is_exact(b, huffman_decoding(a)->Some_0);
}

} // verus!
