use quiche::qpack::huffman::{huffman_decode, huffman_encode, huffman_encoded_len, symbol_code};
use quiche::qpack::literal::{decode_str_at, encode_str_at, encoded_str_len};
use quiche::qpack::{encode_int, encode_str};
use quiche::qpack::Error;

#[test]
fn known_huffman_forms() {
    assert_eq!(
        huffman_encode(b"www.example.com"),
        Ok(vec![0xf1, 0xe3, 0xc2, 0xe5, 0xf2, 0x3a, 0x6b, 0xa0, 0xab, 0x90, 0xf4, 0xff])
    );
    assert_eq!(
        huffman_encode(b"no-cache"),
        Ok(vec![0xa8, 0xeb, 0x10, 0x64, 0x9c, 0xbf])
    );
    assert_eq!(
        huffman_encode(b"custom-key"),
        Ok(vec![0x25, 0xa8, 0x49, 0xe9, 0x5b, 0xa9, 0x7d, 0x7f])
    );
    assert_eq!(
        huffman_encode(b"custom-value"),
        Ok(vec![0x25, 0xa8, 0x49, 0xe9, 0x5b, 0xb8, 0xe8, 0xb4, 0xbf])
    );
    assert_eq!(huffman_encoded_len(b"www.example.com"), Ok(12));
    assert_eq!(huffman_encoded_len(b"custom-value"), Ok(9));
}

#[test]
fn known_huffman_forms_decode() {
    assert_eq!(
        huffman_decode(
            &[0xf1, 0xe3, 0xc2, 0xe5, 0xf2, 0x3a, 0x6b, 0xa0, 0xab, 0x90, 0xf4, 0xff],
            100
        ),
        Ok(b"www.example.com".to_vec())
    );
    assert_eq!(
        huffman_decode(&[0xa8, 0xeb, 0x10, 0x64, 0x9c, 0xbf], 8),
        Ok(b"no-cache".to_vec())
    );
}

#[test]
fn symbol_codes() {
    assert_eq!(symbol_code(b'0'), (0x0, 5));
    assert_eq!(symbol_code(b'a'), (0x3, 5));
    assert_eq!(symbol_code(b't'), (0x9, 5));
    assert_eq!(symbol_code(b' '), (0x14, 6));
    assert_eq!(symbol_code(b'A'), (0x21, 6));
    assert_eq!(symbol_code(b':'), (0x5c, 7));
    assert_eq!(symbol_code(b'&'), (0xf8, 8));
    assert_eq!(symbol_code(0), (0x1ff8, 13));
    assert_eq!(symbol_code(9), (0xffffea, 24));
    assert_eq!(symbol_code(10), (0x3ffffffc, 30));
    assert_eq!(symbol_code(22), (0x3ffffffe, 30));
    assert_eq!(symbol_code(255), (0x3ffffee, 26));
}

#[test]
fn inflated_strings_are_rejected() {
    // Strictly longer: three bytes for one.
    assert_eq!(huffman_encode(b"\t"), Err(Error::InflatedHuffmanEncoding));
    assert_eq!(huffman_encoded_len(b"\t"), Err(Error::InflatedHuffmanEncoding));
    assert_eq!(huffman_encode(&[0xff, 0xfe, 0xfd]), Err(Error::InflatedHuffmanEncoding));
    // As long as the string itself: nothing gained.
    assert_eq!(huffman_encode(b"a"), Err(Error::InflatedHuffmanEncoding));
    assert_eq!(huffman_encode(b"BaR"), Err(Error::InflatedHuffmanEncoding));
    assert_eq!(huffman_encode(b""), Err(Error::InflatedHuffmanEncoding));
    assert_eq!(huffman_encode(b"aa"), Err(Error::InflatedHuffmanEncoding));
    // One byte shorter.
    assert_eq!(huffman_encode(b"aaa"), Ok(vec![0x18, 0xc7]));
}

#[test]
fn padding_alone_is_the_empty_string() {
    assert_eq!(huffman_decode(&[], 0), Ok(Vec::new()));
    // `a` and three bits of padding.
    assert_eq!(huffman_decode(&[0x1f], 1), Ok(b"a".to_vec()));
    // `0` and `a` and six bits of padding.
    assert_eq!(huffman_decode(&[0x00, 0xff], 2), Ok(b"0a".to_vec()));
}

#[test]
fn wrong_padding_is_rejected() {
    // Eight bits of padding are one too many.
    assert_eq!(huffman_decode(&[0xff], 10), Err(Error::InvalidHuffmanEncoding));
    assert_eq!(huffman_decode(&[0x1f, 0xff], 10), Err(Error::InvalidHuffmanEncoding));
    // Padding with a zero bit in it.
    assert_eq!(huffman_decode(&[0x1e], 10), Err(Error::InvalidHuffmanEncoding));
    assert_eq!(huffman_decode(&[0x1b], 10), Err(Error::InvalidHuffmanEncoding));
    // The end-of-string symbol itself.
    assert_eq!(
        huffman_decode(&[0xff, 0xff, 0xff, 0xff], 10),
        Err(Error::InvalidHuffmanEncoding)
    );
    assert_eq!(
        huffman_decode(&[0xff, 0xff, 0xff, 0xfc], 10),
        Err(Error::InvalidHuffmanEncoding)
    );
    // A code that is cut off.
    assert_eq!(huffman_decode(&[0xff, 0xc7], 10), Ok(vec![0x00]));
    assert_eq!(huffman_decode(&[0xff], 10), Err(Error::InvalidHuffmanEncoding));
}

#[test]
fn strings_over_the_limit_are_rejected() {
    let coded = [0xa8, 0xeb, 0x10, 0x64, 0x9c, 0xbf];
    assert_eq!(huffman_decode(&coded, 8), Ok(b"no-cache".to_vec()));
    assert_eq!(huffman_decode(&coded, 7), Err(Error::HeaderListTooLarge));
    assert_eq!(huffman_decode(&coded, 0), Err(Error::HeaderListTooLarge));
    // Invalid bytes are invalid whatever the limit.
    assert_eq!(
        huffman_decode(&[0xa8, 0xeb, 0x10, 0x64, 0x9c, 0xbe], 0),
        Err(Error::InvalidHuffmanEncoding)
    );
}

#[test]
fn a_changed_bit_never_decodes_to_the_same_string() {
    let text: &[u8] = b"Mozilla/5.0 (X11; Linux x86_64) like Gecko";
    let coded = huffman_encode(text).unwrap();
    assert_eq!(huffman_decode(&coded, 1000), Ok(text.to_vec()));
    for i in 0..coded.len() * 8 {
        let mut changed = coded.clone();
        changed[i / 8] ^= 0x80 >> (i % 8);
        match huffman_decode(&changed, 1000) {
            Ok(got) => assert_ne!(got, text.to_vec()),
            Err(e) => assert_eq!(e, Error::InvalidHuffmanEncoding),
        }
    }
}

#[test]
fn a_truncated_huffman_form_never_decodes_to_the_same_string() {
    let text: &[u8] = b"accept-encoding: gzip";
    let coded = huffman_encode(text).unwrap();
    for cut in 0..coded.len() {
        match huffman_decode(&coded[..cut], 1000) {
            Ok(got) => assert_ne!(got, text.to_vec()),
            Err(e) => assert_eq!(e, Error::InvalidHuffmanEncoding),
        }
    }
}

#[test]
fn every_symbol_decodes_as_octets_wrote_it() {
    for sym in 0u16..=255 {
        let sym = sym as u8;
        let text = vec![sym, b'a', sym, sym, b'0', sym];
        let mut buf = [0u8; 64];
        let written = {
            let mut b = octets::OctetsMut::with_slice(&mut buf);
            b.put_huffman_encoded::<false>(&text).unwrap();
            b.off()
        };
        assert_eq!(huffman_decode(&buf[..written], 6), Ok(text));
    }
}

#[test]
fn shorter_forms_are_what_octets_writes() {
    let texts: [&[u8]; 6] = [
        b"www.example.com",
        b"gzip, deflate, br",
        b"text/html; charset=utf-8",
        b"abcdefghijklmnopqrstuvwxyz0123456789",
        b"ABCDEFGHIJKLMNOPQRSTUVWXYZ -_.~%/",
        b"Mon, 21 Oct 2013 20:13:21 GMT",
    ];
    for text in texts {
        let mut buf = [0u8; 64];
        let written = {
            let mut b = octets::OctetsMut::with_slice(&mut buf);
            b.put_huffman_encoded::<false>(text).unwrap();
            b.off()
        };
        let coded = huffman_encode(text).unwrap();
        assert_eq!(&coded[..], &buf[..written]);
        let mut b = octets::Octets::with_slice(&coded);
        assert_eq!(b.get_huffman_decoded(), Ok(text.to_vec()));
    }
}

#[test]
fn strings_take_the_shorter_form() {
    let mut buf = [0u8; 32];
    // Huffman coded: flag above the prefix, then the length.
    assert_eq!(encode_str_at(b"no-cache", 7, 0, &mut buf, 0), Ok(7));
    assert_eq!(&buf[..7], &[0x86, 0xa8, 0xeb, 0x10, 0x64, 0x9c, 0xbf]);
    assert_eq!(encoded_str_len(b"no-cache", 7), 7);
    assert_eq!(decode_str_at(&buf, 0, 7, 100), Ok((b"no-cache".to_vec(), 7)));
    // As it is.
    assert_eq!(encode_str_at(b"BaR", 7, 0, &mut buf, 3), Ok(4));
    assert_eq!(&buf[3..7], &[0x03, b'B', b'a', b'R']);
    assert_eq!(decode_str_at(&buf, 3, 7, 3), Ok((b"BaR".to_vec(), 7)));
    assert_eq!(decode_str_at(&buf, 3, 7, 2), Err(Error::HeaderListTooLarge));
    // With a prefix of three bits under the tag of a literal name.
    assert_eq!(encode_str_at(b"custom-key", 3, 0x20, &mut buf, 0), Ok(10));
    assert_eq!(
        &buf[..10],
        &[0x2f, 0x01, 0x25, 0xa8, 0x49, 0xe9, 0x5b, 0xa9, 0x7d, 0x7f]
    );
    assert_eq!(decode_str_at(&buf, 0, 3, 100), Ok((b"custom-key".to_vec(), 10)));
    // The empty string.
    assert_eq!(encode_str_at(b"", 7, 0, &mut buf, 0), Ok(1));
    assert_eq!(buf[0], 0);
    assert_eq!(decode_str_at(&buf, 0, 7, 0), Ok((Vec::new(), 1)));
}

#[test]
fn strings_need_room() {
    let mut buf = [0x11u8; 6];
    assert_eq!(
        encode_str_at(b"no-cache", 7, 0, &mut buf, 0),
        Err(Error::BufferTooShort)
    );
    assert_eq!(buf, [0x11; 6]);
    assert_eq!(encode_str_at(b"", 7, 0, &mut buf, 6), Err(Error::BufferTooShort));
    assert_eq!(decode_str_at(&[0x03, b'a', b'b'], 0, 7, 10), Err(Error::BufferTooShort));
    assert_eq!(decode_str_at(&[], 0, 7, 10), Err(Error::BufferTooShort));
    assert_eq!(
        decode_str_at(&[0x81, 0xff], 0, 7, 10),
        Err(Error::InvalidHuffmanEncoding)
    );
}

#[test]
fn string_at_the_start_of_a_buffer() {
    let mut buf = [0u8; 8];
    assert_eq!(encode_str(b"no-cache", 7, 0, &mut buf), Ok(7));
    assert_eq!(buf, [0x86, 0xa8, 0xeb, 0x10, 0x64, 0x9c, 0xbf, 0x00]);
    let mut short = [0u8; 6];
    assert_eq!(encode_str(b"no-cache", 7, 0, &mut short), Err(Error::BufferTooShort));
    assert_eq!(encode_int(1337, 5, 0, &mut buf), Ok(3));
    assert_eq!(&buf[..3], &[0x1f, 0x9a, 0x0a]);
}
