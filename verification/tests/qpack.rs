use quiche::qpack::{Decoder, Encoder, Error, Header, HeaderRef};

#[test]
fn encode_decode() {
    let mut encoded = [0u8; 240];

    let headers = vec![
        Header::new(b":path", b"/rsrc.php/v3/yn/r/rIPZ9Qkrdd9.png"),
        Header::new(b"accept-encoding", b"gzip, deflate, br"),
        Header::new(b"accept-language", b"en-US,en;q=0.9"),
        Header::new(b"user-agent", b"Mozilla/5.0 (Windows NT 10.0; Win64; x64) AppleWebKit/537.36 (KHTML, like Gecko) Chrome/63.0.3239.70 Safari/537.36"),
        Header::new(b"accept", b"image/webp,image/apng,image/*,*/*;q=0.8"),
        Header::new(b"referer", b"https://static.xx.fbcdn.net/rsrc.php/v3/yT/l/0,cross/dzXGESIlGQQ.css"),
        Header::new(b":authority", b"static.xx.fbcdn.net"),
        Header::new(b":scheme", b"https"),
        Header::new(b":method", b"GET"),
    ];

    let enc = Encoder::new();
    assert_eq!(enc.encode(&headers, &mut encoded), Ok(240));

    let dec = Decoder::new();
    assert_eq!(dec.decode(&encoded, u64::MAX), Ok(headers));
}

#[test]
fn lower_case() {
    let mut encoded = [0u8; 35];

    let headers_expected = vec![
        Header::new(b":status", b"200"),
        Header::new(b":path", b"/HeLlO"),
        Header::new(b"woot", b"woot"),
        Header::new(b"hello", b"WorlD"),
        Header::new(b"foo", b"BaR"),
    ];

    // Header.
    let headers_in = vec![
        Header::new(b":StAtUs", b"200"),
        Header::new(b":PaTh", b"/HeLlO"),
        Header::new(b"WooT", b"woot"),
        Header::new(b"hello", b"WorlD"),
        Header::new(b"fOo", b"BaR"),
    ];

    let enc = Encoder::new();
    assert_eq!(enc.encode(&headers_in, &mut encoded), Ok(35));

    let dec = Decoder::new();
    let headers_out = dec.decode(&encoded, u64::MAX).unwrap();

    assert_eq!(headers_expected, headers_out);

    // HeaderRef.
    let headers_in = vec![
        HeaderRef::new(b":StAtUs", b"200"),
        HeaderRef::new(b":PaTh", b"/HeLlO"),
        HeaderRef::new(b"WooT", b"woot"),
        HeaderRef::new(b"hello", b"WorlD"),
        HeaderRef::new(b"fOo", b"BaR"),
    ];

    let enc = Encoder::new();
    assert_eq!(enc.encode(&headers_in, &mut encoded), Ok(35));

    let dec = Decoder::new();
    let headers_out = dec.decode(&encoded, u64::MAX).unwrap();

    assert_eq!(headers_expected, headers_out);
}

#[test]
fn lower_ascii_range() {
    let mut encoded = [0u8; 50];
    let enc = Encoder::new();

    // Indexed name with literal value
    let headers1 = vec![Header::new(b"location", b"\t\t\t\t\t\t\t\t\t\t\t\t\t\t\t")];
    assert_eq!(enc.encode(&headers1, &mut encoded), Ok(19));

    // Literal name and value
    let headers2 = vec![Header::new(
        b"a",
        b"\x1e\x1e\x1e\x1e\x1e\x1e\x1e\x1e\x1e\x1e\x1e\x1e\x1e\x1e\x1e",
    )];
    assert_eq!(enc.encode(&headers2, &mut encoded), Ok(20));

    let headers3 = vec![Header::new(b"\t\t\t\t\t\t\t\t\t\t\t\t\t\t\t", b"hello")];
    assert_eq!(enc.encode(&headers3, &mut encoded), Ok(24));
}

#[test]
fn extended_ascii_range() {
    let mut encoded = [0u8; 50];
    let enc = Encoder::new();

    let name = b"location";
    let value = "£££££££££££££££";

    // Indexed name with literal value
    let headers1 = vec![Header::new(name, value.as_bytes())];
    assert_eq!(enc.encode(&headers1, &mut encoded), Ok(34));

    // Literal name and value
    let value = "ððððððððððððððð";
    let headers2 = vec![Header::new(b"a", value.as_bytes())];
    assert_eq!(enc.encode(&headers2, &mut encoded), Ok(35));

    let headers3 = vec![Header::new(value.as_bytes(), b"hello")];
    assert_eq!(enc.encode(&headers3, &mut encoded), Ok(39));
}

#[test]
fn request_pseudo_headers_use_the_static_table() {
    let headers = vec![
        Header::new(b":method", b"GET"),
        Header::new(b":scheme", b"https"),
        Header::new(b":authority", b"example.com"),
        Header::new(b":path", b"/"),
    ];
    let mut out = [0u8; 32];
    let n = Encoder::new().encode(&headers, &mut out).unwrap();
    assert_eq!(
        &out[..n],
        &[0, 0, 209, 215, 80, 136, 47, 145, 211, 93, 5, 92, 135, 167, 193]
    );
    // Three of the four are one indexed byte each.
    assert_eq!(out[2], 0xc0 | 17);
    assert_eq!(out[3], 0xc0 | 23);
    assert_eq!(out[n - 1], 0xc0 | 1);
    // `:authority` has no entry with this value: a name reference.
    assert_eq!(out[4], 0x50);
    assert_eq!(Decoder::new().decode(&out[..n], 1000), Ok(headers));
}

#[test]
fn only_static_matches_take_one_byte_each() {
    let headers = vec![
        Header::new(b":method", b"GET"),
        Header::new(b":scheme", b"https"),
        Header::new(b":path", b"/"),
        Header::new(b":status", b"200"),
    ];
    let mut out = [0u8; 6];
    assert_eq!(Encoder::new().encode(&headers, &mut out), Ok(6));
    assert_eq!(out, [0, 0, 0xd1, 0xd7, 0xc1, 0xd9]);
}

#[test]
fn static_index_above_62_takes_two_bytes() {
    let headers = vec![Header::new(b"x-frame-options", b"sameorigin")];
    let mut out = [0u8; 4];
    assert_eq!(Encoder::new().encode(&headers, &mut out), Ok(4));
    assert_eq!(out, [0, 0, 0xff, 98 - 63]);
    assert_eq!(Decoder::new().decode(&out, 100), Ok(headers));
}

#[test]
fn custom_header_is_a_literal_with_literal_name() {
    let headers = vec![Header::new(b"x-custom-header", b"value1")];
    let mut out = [0u8; 64];
    let n = Encoder::new().encode(&headers, &mut out).unwrap();
    assert_eq!(
        &out[..n],
        &[
            0, 0, 47, 4, 242, 177, 45, 66, 79, 74, 211, 148, 114, 22, 207, 133, 238, 58, 45, 40,
            127
        ]
    );
    assert_eq!(out[2] & 0xe0, 0x20);
    assert_eq!(Decoder::new().decode(&out[..n], u64::MAX), Ok(headers));
}

#[test]
fn mixed_case_custom_header_comes_back_in_lower_case() {
    let headers = vec![Header::new(b"X-Custom", b"abc")];
    let mut out = [0u8; 64];
    let n = Encoder::new().encode(&headers, &mut out).unwrap();
    assert_eq!(
        &out[..n],
        &[0x00, 0x00, 0x2e, 0xf2, 0xb1, 0x2d, 0x42, 0x4f, 0x4f, 0x82, 0x1c, 0x64]
    );
    assert_eq!(
        Decoder::new().decode(&out[..n], u64::MAX),
        Ok(vec![Header::new(b"x-custom", b"abc")])
    );
}

#[test]
fn empty_header_list_is_the_prefix_alone() {
    let headers: Vec<Header> = Vec::new();
    let mut out = [7u8; 4];
    assert_eq!(Encoder::new().encode(&headers, &mut out), Ok(2));
    assert_eq!(out, [0, 0, 7, 7]);
    assert_eq!(Decoder::new().decode(&out[..2], 0), Ok(headers));
}

#[test]
fn encode_fails_and_writes_nothing_when_the_block_does_not_fit() {
    let headers = vec![
        Header::new(b":method", b"GET"),
        Header::new(b"x-custom-header", b"value1"),
    ];
    let mut out = [0xaau8; 21];
    assert_eq!(
        Encoder::new().encode(&headers, &mut out),
        Err(Error::BufferTooShort)
    );
    assert_eq!(out, [0xaau8; 21]);
    let mut out = [0xaau8; 22];
    assert_eq!(Encoder::new().encode(&headers, &mut out), Ok(22));
}

#[test]
fn encoded_len_is_what_encode_writes() {
    let headers = vec![
        Header::new(b":method", b"GET"),
        Header::new(b"x-custom-header", b"value1"),
    ];
    let enc = Encoder::new();
    assert_eq!(enc.encoded_len(&headers, 22), Some(22));
    assert_eq!(enc.encoded_len(&headers, 21), None);
    assert_eq!(enc.encoded_field_len(b":method", b"GET"), 1);
    assert_eq!(enc.encoded_field_len(b"x-custom-header", b"value1"), 19);
}

#[test]
fn round_trip_keeps_order_and_values() {
    let headers = vec![
        Header::new(b"B", b"Second \x00\xff"),
        Header::new(b"a", b""),
        Header::new(b":status", b"599"),
        Header::new(b"a", b"again"),
        Header::new(b"Content-Type", b"text/plain"),
    ];
    let expected = vec![
        Header::new(b"b", b"Second \x00\xff"),
        Header::new(b"a", b""),
        Header::new(b":status", b"599"),
        Header::new(b"a", b"again"),
        Header::new(b"content-type", b"text/plain"),
    ];
    let mut out = [0u8; 128];
    let n = Encoder::new().encode(&headers, &mut out).unwrap();
    assert_eq!(Decoder::new().decode(&out[..n], u64::MAX), Ok(expected));
}

#[test]
fn dynamic_table_entries_are_referred_to_by_distance() {
    let mut enc = Encoder::with_capacity(200);
    let mut dec = Decoder::with_capacity(200);
    assert!(enc.insert(b"x-first", b"one"));
    assert!(enc.insert(b"x-second", b"two"));
    assert!(dec.insert(b"x-first", b"one"));
    assert!(dec.insert(b"x-second", b"two"));
    assert_eq!(enc.inserted(), 2);

    let headers = vec![
        Header::new(b"x-second", b"two"),
        Header::new(b"x-first", b"one"),
        Header::new(b"X-First", b"other"),
    ];
    let mut out = [0u8; 32];
    let n = enc.encode(&headers, &mut out).unwrap();
    // Prefix: two insertions, base at the same place.
    assert_eq!(&out[..2], &[2, 0]);
    // The newest entry is at distance 0, the one before at distance 1.
    assert_eq!(out[2], 0x80);
    assert_eq!(out[3], 0x81);
    // A name reference into the dynamic table, then the value.
    assert_eq!(out[4], 0x41);
    let expected = vec![
        Header::new(b"x-second", b"two"),
        Header::new(b"x-first", b"one"),
        Header::new(b"x-first", b"other"),
    ];
    assert_eq!(dec.decode(&out[..n], u64::MAX), Ok(expected));
    // A decoder without the entries cannot resolve the references.
    assert_eq!(
        Decoder::new().decode(&out[..n], u64::MAX),
        Err(Error::InvalidStaticTableIndex)
    );
}

#[test]
fn static_table_is_preferred_over_the_dynamic_table() {
    let mut enc = Encoder::with_capacity(200);
    assert!(enc.insert(b":method", b"GET"));
    assert!(enc.insert(b":method", b"PATCH"));
    let mut out = [0u8; 16];
    let n = enc.encode(&[Header::new(b":method", b"GET")], &mut out).unwrap();
    assert_eq!(&out[..n], &[2, 0, 0xd1]);
    // An exact dynamic match comes before a static name reference.
    let n = enc.encode(&[Header::new(b":method", b"PATCH")], &mut out).unwrap();
    assert_eq!(&out[..n], &[2, 0, 0x80]);
    // A static name reference comes before a dynamic one.
    let n = enc.encode(&[Header::new(b":method", b"x")], &mut out).unwrap();
    assert_eq!(&out[..n], &[2, 0, 0x5f, 0x00, 0x01, b'x']);
}

#[test]
fn encode_with_insert_fills_the_table_for_later_blocks() {
    let mut enc = Encoder::with_capacity(4096);
    let mut dec = Decoder::with_capacity(4096);
    let headers = vec![
        Header::new(b":method", b"GET"),
        Header::new(b"X-Custom-Header", b"value1"),
        Header::new(b"x-custom-header", b"value1"),
    ];
    let mut first = [0u8; 64];
    let n = enc.encode_with_insert(&headers, &mut first).unwrap();
    // The block itself was encoded against the empty table.
    let mut plain = [0u8; 64];
    let m = Encoder::new().encode(&headers, &mut plain).unwrap();
    assert_eq!(&first[..n], &plain[..m]);
    // One field was inserted: the first literal one, in lower case.
    assert_eq!(enc.inserted(), 1);
    assert!(dec.insert(b"x-custom-header", b"value1"));

    let mut second = [0u8; 64];
    let n = enc.encode_with_insert(&headers, &mut second).unwrap();
    assert_eq!(&second[..n], &[1, 0, 0xd1, 0x80, 0x80]);
    assert_eq!(enc.inserted(), 1);
    let expected = vec![
        Header::new(b":method", b"GET"),
        Header::new(b"x-custom-header", b"value1"),
        Header::new(b"x-custom-header", b"value1"),
    ];
    assert_eq!(dec.decode(&second[..n], u64::MAX), Ok(expected));
}

#[test]
fn encode_with_insert_leaves_the_table_when_the_block_does_not_fit() {
    let mut enc = Encoder::with_capacity(4096);
    let headers = vec![Header::new(b"x-custom-header", b"value1")];
    let mut out = [0u8; 5];
    assert_eq!(
        enc.encode_with_insert(&headers, &mut out),
        Err(Error::BufferTooShort)
    );
    assert_eq!(enc.inserted(), 0);
    assert_eq!(out, [0u8; 5]);
}

#[test]
fn capacity_getter_and_setter() {
    let mut enc = Encoder::new();
    assert_eq!(enc.capacity(), 0);
    assert!(!enc.insert(b"a", b"b"));
    enc.set_capacity(34);
    assert_eq!(enc.capacity(), 34);
    assert!(enc.insert(b"a", b"b"));
    assert!(!enc.insert(b"ab", b"c"));
    enc.set_capacity(0);
    let mut out = [0u8; 16];
    // The entry left with the capacity; its index did not.
    let n = enc.encode(&[Header::new(b"a", b"b")], &mut out).unwrap();
    assert_eq!(&out[..n], &[1, 0, 0x21, b'a', 0x01, b'b']);

    let mut dec = Decoder::new();
    assert_eq!(dec.capacity(), 0);
    assert!(!dec.insert(b"a", b"b"));
    dec.set_capacity(100);
    assert_eq!(dec.capacity(), 100);
    assert!(dec.insert(b"a", b"b"));
    assert_eq!(dec.inserted(), 1);
}

#[test]
fn error_names() {
    assert_eq!(Error::BufferTooShort.name(), "BufferTooShort");
    assert_eq!(Error::InflatedHuffmanEncoding.name(), "InflatedHuffmanEncoding");
    assert_eq!(Error::InvalidHuffmanEncoding.name(), "InvalidHuffmanEncoding");
    assert_eq!(Error::InvalidStaticTableIndex.name(), "InvalidStaticTableIndex");
    assert_eq!(Error::InvalidHeaderValue.name(), "InvalidHeaderValue");
    assert_eq!(Error::HeaderListTooLarge.name(), "HeaderListTooLarge");
}

#[test]
fn buffer_error_becomes_buffer_too_short() {
    assert_eq!(Error::from(octets::BufferTooShortError), Error::BufferTooShort);
}

#[test]
fn wire_tags() {
    assert_eq!(quiche::qpack::INDEXED, 0x80);
    assert_eq!(quiche::qpack::INDEXED_WITH_POST_BASE, 0x10);
    assert_eq!(quiche::qpack::LITERAL, 0x20);
    assert_eq!(quiche::qpack::LITERAL_WITH_NAME_REF, 0x40);
}
