//! What holds of the encoder and the decoder together.
use super::decoder::{
    block_decoding, field_decoding, fields_decoding, kind_of, lemma_fields_decoding_unfold,
    line_decoding, prefix_decoding, resolved, Kind, Line,
};
use super::dynamic_table::{field_size, lemma_best_match, total_size, TableView};
use super::encoder::{
    block_encoding, field_encoding, fields_encoding, representation, represented, Representation,
    INDEXED_STATIC, LITERAL_WITH_STATIC_NAME_REF,
};
use super::error::Error;
use super::header::Field;
use super::huffman::{huffman_encoding, lemma_huffman_round_trip};
use super::literal::{huffman_flag, string_decoding, string_encoding};
use super::prefix_int::{
    int_decoding, int_encoding, lemma_int_encoding_len, lemma_int_round_trip, prefix_mask,
};
use super::static_table::{lemma_static_match, static_name, static_value};
use super::text::{lemma_lower_idempotent, lower};
use super::{INDEXED, LITERAL, LITERAL_WITH_NAME_REF};
use vstd::prelude::*;

verus! {

/// The fields `fs` with their names in lower case.
pub open spec fn lowered(fs: Seq<Field>) -> Seq<Field> {
    Seq::new(fs.len(), |i: int| (lower(fs[i].0), fs[i].1))
}

/// Whether the names and values of `fs` have lengths that a machine can
/// hold.
pub open spec fn sized(fs: Seq<Field>) -> bool {
    forall|i: int| 0 <= i < fs.len() ==> fs[i].0.len() <= usize::MAX && fs[i].1.len() <= usize::MAX
}

/// The first byte of an encoded integer: the high bits, with a number that
/// fits in the prefix below them.
pub proof fn lemma_int_first_byte(value: u64, prefix: u8, first: u8) -> (low: u8)
    requires
        1 <= prefix <= 8,
    ensures
        low <= prefix_mask(prefix),
        int_encoding(value, prefix, first).len() >= 1,
        int_encoding(value, prefix, first)[0] == first | low,
{
    lemma_int_encoding_len(value, prefix, first);
    if value < prefix_mask(prefix) {
        value as u8
    } else {
        prefix_mask(prefix)
    }
}

/// Round trip of a string: what was written for a string under high bits
/// that leave the prefix and the Huffman flag clear is read back as that
/// string, and reading ends where the encoding ends.
pub proof fn lemma_string_round_trip(
    buf: Seq<u8>,
    off: int,
    s: Seq<u8>,
    prefix: u8,
    first: u8,
    max_len: nat,
)
    requires
        1 <= prefix <= 7,
        first & prefix_mask(prefix) == 0,
        first & huffman_flag(prefix) == 0,
        s.len() <= max_len,
        s.len() <= usize::MAX,
        0 <= off,
        off + string_encoding(s, prefix, first).len() <= buf.len(),
        buf.subrange(off, off + string_encoding(s, prefix, first).len()) == string_encoding(
            s,
            prefix,
            first,
        ),
    ensures
        string_decoding(buf, off, prefix, max_len) == Ok::<(Seq<u8>, nat), Error>(
            (s, (off + string_encoding(s, prefix, first).len()) as nat),
        ),
{
    reveal(string_encoding);
    reveal(string_decoding);
    let enc = string_encoding(s, prefix, first);
    let h = huffman_encoding(s);
    let mask = prefix_mask(prefix);
    let flag = huffman_flag(prefix);
    if h.len() < s.len() {
        let tagged = first | flag;
        let head = int_encoding(h.len() as u64, prefix, tagged);
        let low = lemma_int_first_byte(h.len() as u64, prefix, tagged);
        assert(tagged & mask == 0 && (tagged | low) & flag != 0) by (bit_vector)
            requires
                tagged == first | flag,
                first & mask == 0,
                low <= mask,
                flag == (mask + 1) as u8,
                mask == 0x01 || mask == 0x03 || mask == 0x07 || mask == 0x0f || mask == 0x1f
                    || mask == 0x3f || mask == 0x7f,
        ;
        assert(buf.subrange(off, off + head.len()) =~= head) by {
            assert forall|j: int| 0 <= j < head.len() implies buf[off + j] == head[j] by {
                assert(buf[off + j] == buf.subrange(off, off + enc.len())[j]);
            }
        }
        lemma_int_round_trip(buf, off, h.len() as u64, prefix, tagged);
        assert(buf[off] == head[0]) by {
            assert(buf[off] == buf.subrange(off, off + enc.len())[0]);
        }
        let next = off + head.len();
        assert(buf.subrange(next, next + h.len()) =~= h) by {
            assert forall|j: int| 0 <= j < h.len() implies buf[next + j] == h[j] by {
                assert(buf[next + j] == buf.subrange(off, off + enc.len())[head.len() + j]);
            }
        }
        lemma_huffman_round_trip(s);
    } else {
        let head = int_encoding(s.len() as u64, prefix, first);
        let low = lemma_int_first_byte(s.len() as u64, prefix, first);
        assert((first | low) & flag == 0) by (bit_vector)
            requires
                first & flag == 0,
                low <= mask,
                flag == (mask + 1) as u8,
                mask == 0x01 || mask == 0x03 || mask == 0x07 || mask == 0x0f || mask == 0x1f
                    || mask == 0x3f || mask == 0x7f,
        ;
        assert(buf.subrange(off, off + head.len()) =~= head) by {
            assert forall|j: int| 0 <= j < head.len() implies buf[off + j] == head[j] by {
                assert(buf[off + j] == buf.subrange(off, off + enc.len())[j]);
            }
        }
        lemma_int_round_trip(buf, off, s.len() as u64, prefix, first);
        assert(buf[off] == head[0]) by {
            assert(buf[off] == buf.subrange(off, off + enc.len())[0]);
        }
        let next = off + head.len();
        assert(buf.subrange(next, next + s.len()) =~= s) by {
            assert forall|j: int| 0 <= j < s.len() implies buf[next + j] == s[j] by {
                assert(buf[next + j] == buf.subrange(off, off + enc.len())[head.len() + j]);
            }
        }
    }
}

/// A buffer that holds `a + b` at an offset holds `a` there and `b` behind
/// it.
pub proof fn lemma_split_concat(buf: Seq<u8>, off: int, a: Seq<u8>, b: Seq<u8>)
    requires
        0 <= off,
        off + a.len() + b.len() <= buf.len(),
        buf.subrange(off, off + a.len() + b.len()) == a + b,
    ensures
        buf.subrange(off, off + a.len()) == a,
        buf.subrange(off + a.len(), off + a.len() + b.len()) == b,
{
    let whole = buf.subrange(off, off + a.len() + b.len());
    assert forall|j: int| 0 <= j < a.len() implies buf[off + j] == a[j] by {
        assert(buf[off + j] == whole[j]);
    }
    assert forall|j: int| 0 <= j < b.len() implies buf[off + a.len() + j] == b[j] by {
        assert(buf[off + a.len() + j] == whole[a.len() + j]);
    }
    assert(buf.subrange(off, off + a.len()) =~= a);
    assert(buf.subrange(off + a.len(), off + a.len() + b.len()) =~= b);
}

/// The first byte of an encoded string: the high bits, with a number below
/// them that fits in the prefix and the Huffman flag.
pub proof fn lemma_string_first_byte(s: Seq<u8>, prefix: u8, first: u8) -> (low: u8)
    requires
        1 <= prefix <= 7,
    ensures
        low <= 2 * prefix_mask(prefix) + 1,
        string_encoding(s, prefix, first).len() >= 1,
        string_encoding(s, prefix, first)[0] == first | low,
{
    reveal(string_encoding);
    let h = huffman_encoding(s);
    let mask = prefix_mask(prefix);
    let flag = huffman_flag(prefix);
    if h.len() < s.len() {
        let x = lemma_int_first_byte(h.len() as u64, prefix, first | flag);
        let low = flag | x;
        assert((first | flag) | x == first | low && low <= 2 * mask + 1) by (bit_vector)
            requires
                low == flag | x,
                x <= mask,
                flag == (mask + 1) as u8,
                mask == 0x01 || mask == 0x03 || mask == 0x07 || mask == 0x0f || mask == 0x1f
                    || mask == 0x3f || mask == 0x7f,
        ;
        low
    } else {
        lemma_int_first_byte(s.len() as u64, prefix, first)
    }
}

/// An indexed field line is read back as it was written.
pub proof fn lemma_indexed_line(buf: Seq<u8>, off: int, index: u64, fixed: bool, max_len: nat)
    requires
        0 <= off,
        off + int_encoding(index, 6, if fixed { INDEXED_STATIC } else { INDEXED }).len()
            <= buf.len(),
        buf.subrange(
            off,
            off + int_encoding(index, 6, if fixed { INDEXED_STATIC } else { INDEXED }).len(),
        ) == int_encoding(index, 6, if fixed { INDEXED_STATIC } else { INDEXED }),
    ensures
        line_decoding(buf, off, max_len) == Ok::<(Line, nat), Error>(
            (
                Line::Indexed { fixed, index },
                (off + int_encoding(
                    index,
                    6,
                    if fixed { INDEXED_STATIC } else { INDEXED },
                ).len()) as nat,
            ),
        ),
{
    reveal(line_decoding);
    let first: u8 = if fixed { INDEXED_STATIC } else { INDEXED };
    let enc = int_encoding(index, 6, first);
    let low = lemma_int_first_byte(index, 6, first);
    let b = buf[off];
    assert(b == enc[0]) by {
        assert(b == buf.subrange(off, off + enc.len())[0]);
    }
    assert(first & 0x3f == 0 && b & 0x80 == 0x80 && (b & 0x40 == 0x40 <==> first == 0xc0))
        by (bit_vector)
        requires
            b == first | low,
            low <= 0x3f,
            first == 0xc0 || first == 0x80,
    ;
    lemma_int_round_trip(buf, off, index, 6, first);
}

/// A literal field line with a name reference is read back as it was
/// written.
pub proof fn lemma_name_ref_line(
    buf: Seq<u8>,
    off: int,
    index: u64,
    fixed: bool,
    value: Seq<u8>,
    max_len: nat,
)
    requires
        0 <= off,
        value.len() <= max_len,
        value.len() <= usize::MAX,
        off + (int_encoding(
            index,
            4,
            if fixed { LITERAL_WITH_STATIC_NAME_REF } else { LITERAL_WITH_NAME_REF },
        ) + string_encoding(value, 7, 0)).len() <= buf.len(),
        buf.subrange(
            off,
            off + (int_encoding(
                index,
                4,
                if fixed { LITERAL_WITH_STATIC_NAME_REF } else { LITERAL_WITH_NAME_REF },
            ) + string_encoding(value, 7, 0)).len(),
        ) == int_encoding(
            index,
            4,
            if fixed { LITERAL_WITH_STATIC_NAME_REF } else { LITERAL_WITH_NAME_REF },
        ) + string_encoding(value, 7, 0),
    ensures
        line_decoding(buf, off, max_len) == Ok::<(Line, nat), Error>(
            (
                Line::LiteralWithNameRef { fixed, index, value },
                (off + (int_encoding(
                    index,
                    4,
                    if fixed { LITERAL_WITH_STATIC_NAME_REF } else { LITERAL_WITH_NAME_REF },
                ) + string_encoding(value, 7, 0)).len()) as nat,
            ),
        ),
{
    reveal(line_decoding);
    let first: u8 = if fixed { LITERAL_WITH_STATIC_NAME_REF } else { LITERAL_WITH_NAME_REF };
    let head = int_encoding(index, 4, first);
    let tail = string_encoding(value, 7, 0);
    let low = lemma_int_first_byte(index, 4, first);
    lemma_split_concat(buf, off, head, tail);
    let b = buf[off];
    assert(b == head[0]) by {
        assert(b == buf.subrange(off, off + head.len())[0]);
    }
    assert(first & 0x0f == 0 && b & 0x80 != 0x80 && b & 0x40 == 0x40 && (b & 0x10 == 0x10 <==> first
        == 0x50)) by (bit_vector)
        requires
            b == first | low,
            low <= 0x0f,
            first == 0x50 || first == 0x40,
    ;
    lemma_int_round_trip(buf, off, index, 4, first);
    assert(0u8 & 0x7f == 0 && 0u8 & 0x80 == 0) by (bit_vector);
    lemma_string_round_trip(buf, off + head.len(), value, 7, 0, max_len);
}

/// A field line with a literal name is read back as it was written.
pub proof fn lemma_literal_line(
    buf: Seq<u8>,
    off: int,
    name: Seq<u8>,
    value: Seq<u8>,
    max_len: nat,
)
    requires
        0 <= off,
        name.len() <= max_len,
        value.len() <= max_len,
        name.len() <= usize::MAX,
        value.len() <= usize::MAX,
        off + (string_encoding(name, 3, LITERAL) + string_encoding(value, 7, 0)).len()
            <= buf.len(),
        buf.subrange(
            off,
            off + (string_encoding(name, 3, LITERAL) + string_encoding(value, 7, 0)).len(),
        ) == string_encoding(name, 3, LITERAL) + string_encoding(value, 7, 0),
    ensures
        line_decoding(buf, off, max_len) == Ok::<(Line, nat), Error>(
            (
                Line::Literal { name, value },
                (off + (string_encoding(name, 3, LITERAL) + string_encoding(
                    value,
                    7,
                    0,
                )).len()) as nat,
            ),
        ),
{
    reveal(line_decoding);
    let head = string_encoding(name, 3, LITERAL);
    let tail = string_encoding(value, 7, 0);
    let low = lemma_string_first_byte(name, 3, LITERAL);
    lemma_split_concat(buf, off, head, tail);
    let b = buf[off];
    assert(b == head[0]) by {
        assert(b == buf.subrange(off, off + head.len())[0]);
    }
    assert(0x20u8 & 0x07 == 0 && 0x20u8 & 0x08 == 0 && b & 0x80 != 0x80 && b & 0x40 != 0x40 && b
        & 0x20 == 0x20) by (bit_vector)
        requires
            b == 0x20u8 | low,
            low <= 0x0f,
    ;
    lemma_string_round_trip(buf, off, name, 3, LITERAL, max_len);
    assert(0u8 & 0x7f == 0 && 0u8 & 0x80 == 0) by (bit_vector);
    lemma_string_round_trip(buf, off + head.len(), value, 7, 0, max_len);
}

/// Round trip of a field: what the encoder writes for a field is read back,
/// with the same dynamic table and the number of its insertions as the
/// base, as that field with its name in lower case.
pub proof fn lemma_field_round_trip(t: TableView, buf: Seq<u8>, off: int, f: Field, left: nat)
    requires
        t.inserted() <= u64::MAX,
        f.0.len() <= usize::MAX,
        f.1.len() <= usize::MAX,
        field_size(f) <= left,
        0 <= off,
        off + field_encoding(t, f).len() <= buf.len(),
        buf.subrange(off, off + field_encoding(t, f).len()) == field_encoding(t, f),
    ensures
        field_decoding(t, t.inserted(), buf, off, left) == Ok::<(Field, nat), Error>(
            ((lower(f.0), f.1), (off + field_encoding(t, f).len()) as nat),
        ),
{
    reveal(field_encoding);
    reveal(representation);
    reveal(field_decoding);
    lemma_static_match(f.0, f.1);
    lemma_best_match(t, f.0, f.1);
    lemma_lower_idempotent(f.0);
    match representation(t, f) {
        Representation::IndexedStatic(i) => {
            lemma_indexed_line(buf, off, i, true, left);
        },
        Representation::IndexedDynamic(d) => {
            lemma_indexed_line(buf, off, d, false, left);
        },
        Representation::StaticNameRef(i) => {
            lemma_name_ref_line(buf, off, i, true, f.1, left);
        },
        Representation::DynamicNameRef(d) => {
            lemma_name_ref_line(buf, off, d, false, f.1, left);
        },
        Representation::Literal => {
            lemma_literal_line(buf, off, lower(f.0), f.1, left);
        },
    }
}

/// The bytes of a list of fields are the bytes of the first, followed by
/// the bytes of the rest.
pub proof fn lemma_fields_encoding_front(t: TableView, fs: Seq<Field>)
    requires
        fs.len() > 0,
    ensures
        fields_encoding(t, fs) == field_encoding(t, fs[0]) + fields_encoding(t, fs.skip(1)),
    decreases fs.len(),
{
    if fs.len() == 1 {
        assert(fs.drop_last() =~= Seq::<Field>::empty());
        assert(fs.skip(1) =~= Seq::<Field>::empty());
        assert(fields_encoding(t, fs) =~= field_encoding(t, fs[0]) + fields_encoding(
            t,
            fs.skip(1),
        ));
    } else {
        let init = fs.drop_last();
        lemma_fields_encoding_front(t, init);
        assert(init.skip(1) =~= fs.skip(1).drop_last());
        assert(fields_encoding(t, fs) =~= field_encoding(t, fs[0]) + fields_encoding(
            t,
            fs.skip(1),
        ));
    }
}

/// Round trip of a list of fields that ends where the buffer ends.
pub proof fn lemma_fields_round_trip(t: TableView, buf: Seq<u8>, off: int, fs: Seq<Field>, left: nat)
    requires
        t.inserted() <= u64::MAX,
        sized(fs),
        total_size(fs) <= left,
        0 <= off <= buf.len(),
        buf.subrange(off, buf.len() as int) == fields_encoding(t, fs),
    ensures
        fields_decoding(t, t.inserted(), buf, off, left) == Ok::<Seq<Field>, Error>(lowered(fs)),
    decreases fs.len(),
{
    lemma_fields_decoding_unfold(t, t.inserted(), buf, off, left);
    let whole = buf.subrange(off, buf.len() as int);
    assert(whole.len() == buf.len() - off);
    if fs.len() == 0 {
        assert(fields_encoding(t, fs).len() == 0);
        assert(off == buf.len());
        assert(lowered(fs) =~= Seq::<Field>::empty());
    } else {
        let f = fs[0];
        let rest = fs.skip(1);
        let head = field_encoding(t, f);
        let tail = fields_encoding(t, rest);
        lemma_fields_encoding_front(t, fs);
        assert(whole.len() == head.len() + tail.len());
        assert(buf.subrange(off, off + head.len() + tail.len()) =~= whole);
        lemma_split_concat(buf, off, head, tail);
        lemma_field_round_trip(t, buf, off, f, left);
        super::decoder::lemma_field_advances(t, t.inserted(), buf, off, left);
        let g = (lower(f.0), f.1);
        let next = off + head.len();
        assert(sized(rest)) by {
            assert forall|i: int| 0 <= i < rest.len() implies rest[i].0.len() <= usize::MAX
                && rest[i].1.len() <= usize::MAX by {
                assert(rest[i] == fs[i + 1]);
            }
        }
        assert(buf.subrange(next, buf.len() as int) =~= tail);
        lemma_fields_round_trip(t, buf, next, rest, (left - field_size(g)) as nat);
        assert(seq![g] + lowered(rest) =~= lowered(fs));
    }
}

/// Round trip: a header block that was encoded is decoded, with the same
/// dynamic table and under a limit that the fields' sizes are within, to the
/// fields that were encoded, in their order, with their names in lower case
/// and their values as they were.
pub proof fn lemma_block_round_trip(t: TableView, fs: Seq<Field>, max: nat)
    requires
        t.inserted() <= u64::MAX,
        sized(fs),
        total_size(fs) <= max,
    ensures
        block_decoding(t, block_encoding(t, fs), max) == Ok::<Seq<Field>, Error>(lowered(fs)),
{
    reveal(block_decoding);
    let buf = block_encoding(t, fs);
    let a = int_encoding(t.inserted() as u64, 8, 0);
    let b = int_encoding(0, 7, 0);
    let body = fields_encoding(t, fs);
    assert(buf =~= a + b + body);
    let start = a.len() as int;
    let end = (a.len() + b.len()) as int;
    assert(buf.subrange(0, start) =~= a);
    assert(buf.subrange(start, end) =~= b);
    assert(buf.subrange(end, buf.len() as int) =~= body);
    assert(0u8 & 0xff == 0 && 0u8 & 0x7f == 0) by (bit_vector);
    lemma_int_round_trip(buf, 0, t.inserted() as u64, 8, 0);
    lemma_int_round_trip(buf, start, 0, 7, 0);
    let low = lemma_int_first_byte(0, 7, 0);
    let sign = buf[start];
    assert(sign == b[0]);
    assert(sign & 0x80 != 0x80) by (bit_vector)
        requires
            sign == 0u8 | low,
            low <= 0x7f,
    ;
    lemma_fields_round_trip(t, buf, end, fs, max);
}

/// No byte of a string in lower case is an upper-case ASCII letter.
pub proof fn lemma_lower_has_no_upper(s: Seq<u8>)
    ensures
        forall|i: int| 0 <= i < s.len() ==> !(0x41 <= #[trigger] lower(s)[i] <= 0x5a),
{
}

/// Every name that the decoder gives out is in lower case, and the sizes of
/// the fields that it gives out are within the limit.
pub proof fn lemma_decoded_fields(t: TableView, base: nat, buf: Seq<u8>, off: int, left: nat)
    ensures
        match fields_decoding(t, base, buf, off, left) {
            Ok(fs) => total_size(fs) <= left && forall|i: int|
                0 <= i < fs.len() ==> lower((#[trigger] fs[i]).0) == fs[i].0,
            Err(_) => true,
        },
    decreases buf.len() - off,
{
    lemma_fields_decoding_unfold(t, base, buf, off, left);
    if 0 <= off < buf.len() {
        super::decoder::lemma_field_advances(t, base, buf, off, left);
        reveal(field_decoding);
        match field_decoding(t, base, buf, off, left) {
            Ok((f, next)) => {
                let smaller = (left - field_size(f)) as nat;
                lemma_decoded_fields(t, base, buf, next as int, smaller);
                match fields_decoding(t, base, buf, next as int, smaller) {
                    Ok(rest) => {
                        let fs = seq![f] + rest;
                        assert(fs.skip(1) =~= rest);
                        assert forall|i: int| 0 <= i < fs.len() implies lower(
                            (#[trigger] fs[i]).0,
                        ) == fs[i].0 by {
                            if i == 0 {
                                let line = line_decoding(buf, off, left)->Ok_0.0;
                                let raw = resolved(t, base, line)->Some_0;
                                lemma_lower_idempotent(raw.0);
                            } else {
                                assert(fs[i] == rest[i - 1]);
                            }
                        }
                    },
                    Err(_) => {},
                }
            },
            Err(_) => {},
        }
    }
}

/// Case normalization and size ceiling: whatever block is decoded, every
/// name in the result is in lower case, and the sizes of the fields are
/// together within the limit that was given.
pub proof fn lemma_decoded_block(t: TableView, buf: Seq<u8>, max: nat)
    ensures
        match block_decoding(t, buf, max) {
            Ok(fs) => total_size(fs) <= max && forall|i: int|
                0 <= i < fs.len() ==> lower((#[trigger] fs[i]).0) == fs[i].0,
            Err(_) => true,
        },
{
    reveal(block_decoding);
    match prefix_decoding(buf) {
        Ok((base, start)) => {
            lemma_decoded_fields(t, base as nat, buf, start as int, max);
        },
        Err(_) => {},
    }
}

/// The lengths of the strings that a field line holds, added up.
pub open spec fn line_text_len(line: Line) -> nat {
    match line {
        Line::Indexed { fixed, index } => 0,
        Line::IndexedWithPostBase { index } => 0,
        Line::Literal { name, value } => name.len() + value.len(),
        Line::LiteralWithNameRef { fixed, index, value } => value.len(),
        Line::LiteralWithPostBase { index, value } => value.len(),
    }
}

/// A string that can be read under one limit is read the same under a lower
/// one that it is within, and is too large for one that it is not within.
pub proof fn lemma_string_limit(buf: Seq<u8>, off: int, prefix: u8, big: nat, max: nat)
    requires
        max <= big,
        string_decoding(buf, off, prefix, big) is Ok,
    ensures
        string_decoding(buf, off, prefix, max) == if string_decoding(
            buf,
            off,
            prefix,
            big,
        )->Ok_0.0.len() <= max {
            string_decoding(buf, off, prefix, big)
        } else {
            Err(Error::HeaderListTooLarge)
        },
{
    reveal(string_decoding);
}

/// A field line that can be read under one limit is read the same under a
/// lower one, or is too large for it; and it is too large only where its
/// strings are together longer than the limit.
pub proof fn lemma_line_limit(buf: Seq<u8>, off: int, big: nat, max: nat)
    requires
        max <= big,
        line_decoding(buf, off, big) is Ok,
    ensures
        line_decoding(buf, off, max) == line_decoding(buf, off, big) || (line_decoding(
            buf,
            off,
            max,
        ) == Err::<(Line, nat), Error>(Error::HeaderListTooLarge) && line_text_len(
            line_decoding(buf, off, big)->Ok_0.0,
        ) > max),
{
    reveal(line_decoding);
    match kind_of(buf[off]) {
        Kind::Indexed => {},
        Kind::IndexedWithPostBase => {},
        Kind::Literal => {
            lemma_string_limit(buf, off, 3, big, max);
            let next = string_decoding(buf, off, 3, big)->Ok_0.1;
            lemma_string_limit(buf, next as int, 7, big, max);
        },
        Kind::LiteralWithNameRef => {
            let next = int_decoding(buf, off, 4)->Ok_0.1;
            lemma_string_limit(buf, next as int, 7, big, max);
        },
        Kind::LiteralWithPostBase => {
            let next = int_decoding(buf, off, 3)->Ok_0.1;
            lemma_string_limit(buf, next as int, 7, big, max);
        },
    }
}

/// A field that can be read under one limit is read the same under a lower
/// one that its size is within, and is too large for one that it is not
/// within.
pub proof fn lemma_field_limit(t: TableView, base: nat, buf: Seq<u8>, off: int, big: nat, max: nat)
    requires
        max <= big,
        field_decoding(t, base, buf, off, big) is Ok,
    ensures
        field_decoding(t, base, buf, off, max) == if field_size(
            field_decoding(t, base, buf, off, big)->Ok_0.0,
        ) <= max {
            field_decoding(t, base, buf, off, big)
        } else {
            Err(Error::HeaderListTooLarge)
        },
{
    reveal(field_decoding);
    lemma_line_limit(buf, off, big, max);
}

/// The sizes of a field and of the fields behind it add up.
pub proof fn lemma_total_size_front(f: Field, rest: Seq<Field>)
    ensures
        total_size(seq![f] + rest) == field_size(f) + total_size(rest),
{
    let fs = seq![f] + rest;
    assert(fs[0] == f);
    assert(fs.skip(1) =~= rest);
}

/// Fields that can be read under one limit are read the same under a lower
/// one that their sizes are together within, and are too large for one that
/// they are not within.
pub proof fn lemma_fields_limit(
    t: TableView,
    base: nat,
    buf: Seq<u8>,
    off: int,
    big: nat,
    max: nat,
)
    requires
        max <= big,
        fields_decoding(t, base, buf, off, big) is Ok,
    ensures
        fields_decoding(t, base, buf, off, max) == if total_size(
            fields_decoding(t, base, buf, off, big)->Ok_0,
        ) <= max {
            fields_decoding(t, base, buf, off, big)
        } else {
            Err(Error::HeaderListTooLarge)
        },
    decreases buf.len() - off,
{
    lemma_fields_decoding_unfold(t, base, buf, off, big);
    lemma_fields_decoding_unfold(t, base, buf, off, max);
    if 0 <= off < buf.len() {
        super::decoder::lemma_field_advances(t, base, buf, off, big);
        lemma_field_limit(t, base, buf, off, big, max);
        let f = field_decoding(t, base, buf, off, big)->Ok_0.0;
        let next = field_decoding(t, base, buf, off, big)->Ok_0.1;
        let rest = fields_decoding(t, base, buf, next as int, (big - field_size(f)) as nat)->Ok_0;
        lemma_total_size_front(f, rest);
        if field_size(f) <= max {
            lemma_fields_limit(
                t,
                base,
                buf,
                next as int,
                (big - field_size(f)) as nat,
                (max - field_size(f)) as nat,
            );
        }
    } else {
        assert(total_size(Seq::<Field>::empty()) == 0);
    }
}

/// Size ceiling: a block whose fields' sizes are together more than the
/// limit is refused as too large, and one whose fields are within the limit
/// is decoded as it is under any greater limit.
pub proof fn lemma_size_ceiling(t: TableView, buf: Seq<u8>, big: nat, max: nat)
    requires
        max <= big,
        block_decoding(t, buf, big) is Ok,
    ensures
        block_decoding(t, buf, max) == if total_size(block_decoding(t, buf, big)->Ok_0) <= max {
            block_decoding(t, buf, big)
        } else {
            Err(Error::HeaderListTooLarge)
        },
{
    reveal(block_decoding);
    let base = prefix_decoding(buf)->Ok_0.0;
    let start = prefix_decoding(buf)->Ok_0.1;
    lemma_fields_limit(t, base as nat, buf, start as int, big, max);
}

/// A field that an entry of the static table has the name and the value of
/// is written as an index into the static table: in one byte where the
/// index is below 63 and in two where it is not, and in no more bytes than
/// any form that holds a part of the field as a string would take.
pub proof fn lemma_static_match_is_indexed(t: TableView, f: Field, entry: nat, other: Representation)
    requires
        entry < super::static_table::STATIC_TABLE_LEN,
        static_name(entry) == lower(f.0),
        static_value(entry) == f.1,
        !(other is IndexedStatic) && !(other is IndexedDynamic),
    ensures
        representation(t, f) is IndexedStatic,
        representation(t, f)->IndexedStatic_0 <= entry,
        field_encoding(t, f) == int_encoding(
            representation(t, f)->IndexedStatic_0,
            6,
            INDEXED_STATIC,
        ),
        field_encoding(t, f).len() == if representation(t, f)->IndexedStatic_0 < 63 {
            1nat
        } else {
            2nat
        },
        field_encoding(t, f).len() <= represented(other, f).len(),
{
    reveal(representation);
    reveal(field_encoding);
    reveal(string_encoding);
    lemma_static_match(f.0, f.1);
    let i = representation(t, f)->IndexedStatic_0;
    lemma_int_encoding_len(i, 6, INDEXED_STATIC);
    if i >= 63 {
        super::prefix_int::lemma_int_tail_len((i - 63) as nat);
    }
    let h = huffman_encoding(f.1);
    lemma_int_encoding_len(h.len() as u64, 7, 0x80);
    lemma_int_encoding_len(f.1.len() as u64, 7, 0);
    match other {
        Representation::StaticNameRef(k) => {
            lemma_int_encoding_len(k, 4, LITERAL_WITH_STATIC_NAME_REF);
        },
        Representation::DynamicNameRef(k) => {
            lemma_int_encoding_len(k, 4, LITERAL_WITH_NAME_REF);
        },
        _ => {
            let name = lower(f.0);
            let hn = huffman_encoding(name);
            lemma_int_encoding_len(hn.len() as u64, 3, LITERAL | 0x08);
            lemma_int_encoding_len(name.len() as u64, 3, LITERAL);
        },
    }
}

} // verus!
