use quiche::qpack::decoder::{decode_line_at, decode_prefix, FieldLine, Kind};
use quiche::qpack::{Decoder, Encoder, Error, Header};

#[test]
fn kinds_by_leading_bits() {
    assert_eq!(Kind::from_byte(0x80), Kind::Indexed);
    assert_eq!(Kind::from_byte(0xff), Kind::Indexed);
    assert_eq!(Kind::from_byte(0x40), Kind::LiteralWithNameRef);
    assert_eq!(Kind::from_byte(0x7f), Kind::LiteralWithNameRef);
    assert_eq!(Kind::from_byte(0x20), Kind::Literal);
    assert_eq!(Kind::from_byte(0x3f), Kind::Literal);
    assert_eq!(Kind::from_byte(0x10), Kind::IndexedWithPostBase);
    assert_eq!(Kind::from_byte(0x1f), Kind::IndexedWithPostBase);
    assert_eq!(Kind::from_byte(0x00), Kind::LiteralWithPostBase);
    assert_eq!(Kind::from_byte(0x0f), Kind::LiteralWithPostBase);
}

#[test]
fn decode_static_index() {
    let dec = Decoder::new();
    assert_eq!(
        dec.decode(&[0, 0, 0xc0 | 25], 100),
        Ok(vec![Header::new(b":status", b"200")])
    );
}

#[test]
fn decode_rejects_static_index_out_of_range() {
    let dec = Decoder::new();
    // 99 = 63 + 36.
    assert_eq!(
        dec.decode(&[0, 0, 0xff, 36], 100),
        Err(Error::InvalidStaticTableIndex)
    );
    assert_eq!(
        dec.decode(&[0, 0, 0xff, 35], 100),
        Ok(vec![Header::new(b"x-frame-options", b"sameorigin")])
    );
    // A name reference to a static entry that does not exist.
    assert_eq!(
        dec.decode(&[0, 0, 0x5f, 99 - 15, 0x01, b'x'], 100),
        Err(Error::InvalidStaticTableIndex)
    );
}

#[test]
fn decode_rejects_dynamic_references_without_entries() {
    let dec = Decoder::new();
    assert_eq!(dec.decode(&[0, 0, 0x80], 100), Err(Error::InvalidStaticTableIndex));
    assert_eq!(dec.decode(&[0, 0, 0x10], 100), Err(Error::InvalidStaticTableIndex));
    assert_eq!(
        dec.decode(&[0, 0, 0x40, 0x01, b'x'], 100),
        Err(Error::InvalidStaticTableIndex)
    );
    assert_eq!(
        dec.decode(&[0, 0, 0x00, 0x01, b'x'], 100),
        Err(Error::InvalidStaticTableIndex)
    );
}

#[test]
fn decode_truncated_block_is_buffer_too_short() {
    let dec = Decoder::new();
    assert_eq!(dec.decode(&[], 100), Err(Error::BufferTooShort));
    assert_eq!(dec.decode(&[0], 100), Err(Error::BufferTooShort));
    // An index whose continuation never ends.
    assert_eq!(dec.decode(&[0, 0, 0xff], 100), Err(Error::BufferTooShort));
    assert_eq!(dec.decode(&[0, 0, 0xff, 0x80], 100), Err(Error::BufferTooShort));
    // A value that claims more bytes than there are.
    assert_eq!(
        dec.decode(&[0, 0, 0x51, 0x03, b'a', b'b'], 100),
        Err(Error::BufferTooShort)
    );
    // A literal name without a value.
    assert_eq!(dec.decode(&[0, 0, 0x21, b'a'], 100), Err(Error::BufferTooShort));
}

#[test]
fn decode_every_truncation_of_a_block_fails_or_gives_a_prefix() {
    let headers = vec![
        Header::new(b":method", b"GET"),
        Header::new(b"x-custom-header", b"value1"),
        Header::new(b"location", b"\t\t\t"),
    ];
    let mut out = [0u8; 64];
    let n = Encoder::new().encode(&headers, &mut out).unwrap();
    let dec = Decoder::new();
    for cut in 0..n {
        match dec.decode(&out[..cut], u64::MAX) {
            Ok(got) => {
                assert!(got.len() < headers.len());
                assert_eq!(&got[..], &headers[..got.len()]);
            }
            Err(e) => assert_eq!(e, Error::BufferTooShort),
        }
    }
}

#[test]
fn decode_rejects_invalid_huffman() {
    let dec = Decoder::new();
    // Value marked as Huffman coded, one byte of eight one-bits.
    assert_eq!(
        dec.decode(&[0, 0, 0x51, 0x81, 0xff], 100),
        Err(Error::InvalidHuffmanEncoding)
    );
    // Name marked as Huffman coded, padded with zero bits.
    assert_eq!(
        dec.decode(&[0, 0, 0x29, 0x18, 0x00], 100),
        Err(Error::InvalidHuffmanEncoding)
    );
}

#[test]
fn decode_rejects_a_prefix_without_base() {
    let dec = Decoder::new();
    // No insertions, base below them.
    assert_eq!(dec.decode(&[0, 0x80], 100), Err(Error::InvalidHeaderValue));
    assert_eq!(dec.decode(&[1, 0x81], 100), Err(Error::InvalidHeaderValue));
    assert_eq!(decode_prefix(&[1, 0x80]), Ok((0, 2)));
    assert_eq!(decode_prefix(&[5, 0x81, 0xc0]), Ok((3, 2)));
    assert_eq!(decode_prefix(&[5, 0x03]), Ok((8, 2)));
    // Base above what a `u64` holds.
    let block = [
        0xff, 0x80, 0xfe, 0xff, 0xff, 0xff, 0xff, 0xff, 0xff, 0xff, 0x01, 0x01,
    ];
    assert_eq!(decode_prefix(&block), Err(Error::InvalidHeaderValue));
}

#[test]
fn size_ceiling() {
    let headers = vec![
        Header::new(b":method", b"GET"),
        Header::new(b"x-custom-header", b"value1"),
    ];
    let mut out = [0u8; 64];
    let n = Encoder::new().encode(&headers, &mut out).unwrap();
    let dec = Decoder::new();
    // 7 + 3 + 32 and 15 + 6 + 32.
    let total = 42 + 53;
    assert_eq!(dec.decode(&out[..n], total), Ok(headers));
    assert_eq!(
        dec.decode(&out[..n], total - 1),
        Err(Error::HeaderListTooLarge)
    );
    assert_eq!(dec.decode(&out[..n], 42), Err(Error::HeaderListTooLarge));
    assert_eq!(dec.decode(&out[..n], 41), Err(Error::HeaderListTooLarge));
    assert_eq!(dec.decode(&out[..n], 0), Err(Error::HeaderListTooLarge));
}

#[test]
fn size_ceiling_stops_a_long_huffman_string() {
    // 1000 bytes of zero bits are 1600 times the symbol `0`.
    let mut block = vec![0u8, 0, 0x51, 0xff, 0xe9, 0x06];
    block.extend(std::iter::repeat(0u8).take(1000));
    let dec = Decoder::new();
    assert_eq!(dec.decode(&block, 1500), Err(Error::HeaderListTooLarge));
    let got = dec.decode(&block, 5 + 1600 + 32).unwrap();
    assert_eq!(got.len(), 1);
    assert_eq!(got[0].name, b":path".to_vec());
    assert_eq!(got[0].value, vec![b'0'; 1600]);
    assert_eq!(
        dec.decode(&block, 5 + 1600 + 31),
        Err(Error::HeaderListTooLarge)
    );
}

#[test]
fn decode_lowers_literal_names() {
    let dec = Decoder::new();
    assert_eq!(
        dec.decode(&[0, 0, 0x23, b'F', b'o', b'O', 0x03, b'B', b'a', b'R'], 100),
        Ok(vec![Header::new(b"foo", b"BaR")])
    );
}

#[test]
fn decode_post_base_references() {
    let mut dec = Decoder::with_capacity(200);
    assert!(dec.insert(b"X-One", b"1"));
    assert!(dec.insert(b"x-two", b"2"));
    assert!(dec.insert(b"x-three", b"3"));
    // One insertion needed, base 1: entries 2 and 3 lie above the base.
    assert_eq!(
        dec.decode(&[1, 0, 0x10, 0x11, 0x80, 0x01, 0x01, b'v'], 1000),
        Ok(vec![
            Header::new(b"x-two", b"2"),
            Header::new(b"x-three", b"3"),
            Header::new(b"x-one", b"1"),
            Header::new(b"x-three", b"v"),
        ])
    );
    assert_eq!(
        dec.decode(&[1, 0, 0x12], 1000),
        Err(Error::InvalidStaticTableIndex)
    );
    // Base 3, given as two below five insertions... which the prefix
    // writes as five and a distance of one below.
    assert_eq!(
        dec.decode(&[5, 0x81, 0x80, 0x82], 1000),
        Ok(vec![Header::new(b"x-three", b"3"), Header::new(b"x-one", b"1")])
    );
}

#[test]
fn decode_line_gives_the_line_as_it_stands() {
    match decode_line_at(&[0xaa, 0xd1], 1, 10) {
        Ok((FieldLine::Indexed { fixed, index }, next)) => {
            assert!(fixed);
            assert_eq!(index, 17);
            assert_eq!(next, 2);
        }
        _ => panic!("an indexed line"),
    }
    match decode_line_at(&[0x61, 0x02, b'h', b'i', 0x00], 0, 10) {
        Ok((FieldLine::LiteralWithNameRef { fixed, index, value }, next)) => {
            assert!(!fixed);
            assert_eq!(index, 1);
            assert_eq!(value, b"hi".to_vec());
            assert_eq!(next, 4);
        }
        _ => panic!("a literal line with a name reference"),
    }
    match decode_line_at(&[0x61, 0x02, b'h', b'i'], 0, 1) {
        Err(e) => assert_eq!(e, Error::HeaderListTooLarge),
        Ok(_) => panic!("a value over the limit"),
    }
}

#[test]
fn decode_field_at_counts_the_entry_overhead() {
    let dec = Decoder::new();
    let block = [0xd1u8];
    assert_eq!(
        dec.decode_field_at(0, &block, 0, 42),
        Ok((Header::new(b":method", b"GET"), 1))
    );
    assert_eq!(
        dec.decode_field_at(0, &block, 0, 41),
        Err(Error::HeaderListTooLarge)
    );
    assert_eq!(
        dec.decode_field_at(0, &block, 1, 100),
        Err(Error::BufferTooShort)
    );
}
