use quiche::qpack::prefix_int::{
    decode_int, decode_int_at, encode_int, encode_int_at, encoded_int_len, prefix_mask_of,
};
use quiche::qpack::Error;

fn round_trip(value: u64, prefix: u8, first: u8) {
    let mut buf = [0u8; 16];
    let n = encode_int(value, prefix, first, &mut buf).unwrap();
    assert_eq!(n, encoded_int_len(value, prefix));
    assert_eq!(decode_int(&buf[..n], prefix), Ok((value, n)));
    // What follows the integer is not read.
    assert_eq!(decode_int(&buf, prefix), Ok((value, n)));
    // The high bits stay what the caller gave.
    assert_eq!(buf[0] & !prefix_mask_of(prefix), first);
}

#[test]
fn boundaries_round_trip_for_every_prefix_in_use() {
    for (prefix, first) in [(3u8, 0x20u8), (4, 0x50), (6, 0xc0), (7, 0x80), (8, 0x00)] {
        let full: u64 = (1u64 << prefix) - 1;
        for value in [0, 1, full - 1, full, full + 1, full + 127, full + 128, u64::MAX - 1, u64::MAX] {
            round_trip(value, prefix, first);
        }
    }
}

#[test]
fn every_prefix_width_round_trips() {
    for prefix in 1u8..=8 {
        for value in [0u64, 1, 254, 255, 256, 1 << 32, u64::MAX] {
            round_trip(value, prefix, 0);
        }
    }
}

#[test]
fn known_encodings() {
    let mut buf = [0u8; 16];
    assert_eq!(encode_int(10, 5, 0, &mut buf), Ok(1));
    assert_eq!(buf[0], 0x0a);
    assert_eq!(encode_int(1337, 5, 0, &mut buf), Ok(3));
    assert_eq!(&buf[..3], &[0x1f, 0x9a, 0x0a]);
    assert_eq!(encode_int(42, 8, 0, &mut buf), Ok(1));
    assert_eq!(buf[0], 0x2a);
    assert_eq!(encode_int(30, 5, 0xe0, &mut buf), Ok(1));
    assert_eq!(buf[0], 0xfe);
    assert_eq!(encode_int(31, 5, 0xe0, &mut buf), Ok(2));
    assert_eq!(&buf[..2], &[0xff, 0x00]);
    assert_eq!(encode_int(u64::MAX, 8, 0, &mut buf), Ok(11));
    assert_eq!(
        &buf[..11],
        &[0xff, 0x80, 0xfe, 0xff, 0xff, 0xff, 0xff, 0xff, 0xff, 0xff, 0x01]
    );
    assert_eq!(encode_int(u64::MAX, 3, 0x20, &mut buf), Ok(11));
    assert_eq!(
        &buf[..11],
        &[0x27, 0xf8, 0xff, 0xff, 0xff, 0xff, 0xff, 0xff, 0xff, 0xff, 0x01]
    );
}

#[test]
fn encoded_lengths() {
    assert_eq!(encoded_int_len(0, 6), 1);
    assert_eq!(encoded_int_len(62, 6), 1);
    assert_eq!(encoded_int_len(63, 6), 2);
    assert_eq!(encoded_int_len(63 + 127, 6), 2);
    assert_eq!(encoded_int_len(63 + 128, 6), 3);
    assert_eq!(encoded_int_len(u64::MAX, 8), 11);
    assert_eq!(encoded_int_len(u64::MAX, 1), 11);
}

#[test]
fn masks() {
    assert_eq!(prefix_mask_of(1), 0x01);
    assert_eq!(prefix_mask_of(3), 0x07);
    assert_eq!(prefix_mask_of(4), 0x0f);
    assert_eq!(prefix_mask_of(6), 0x3f);
    assert_eq!(prefix_mask_of(7), 0x7f);
    assert_eq!(prefix_mask_of(8), 0xff);
}

#[test]
fn encode_at_an_offset_touches_only_its_bytes() {
    let mut buf = [0x55u8; 6];
    assert_eq!(encode_int_at(1337, 5, 0x20, &mut buf, 2), Ok(3));
    assert_eq!(buf, [0x55, 0x55, 0x3f, 0x9a, 0x0a, 0x55]);
    assert_eq!(decode_int_at(&buf, 2, 5), Ok((1337, 5)));
}

#[test]
fn encode_fails_and_writes_nothing_without_room() {
    let mut buf = [0x55u8; 4];
    assert_eq!(encode_int_at(1337, 5, 0, &mut buf, 2), Err(Error::BufferTooShort));
    assert_eq!(buf, [0x55; 4]);
    assert_eq!(encode_int_at(1, 5, 0, &mut buf, 4), Err(Error::BufferTooShort));
    assert_eq!(encode_int_at(1, 5, 0, &mut buf, 9), Err(Error::BufferTooShort));
    assert_eq!(encode_int_at(1, 5, 0, &mut buf, usize::MAX), Err(Error::BufferTooShort));
    assert_eq!(buf, [0x55; 4]);
    let mut none: [u8; 0] = [];
    assert_eq!(encode_int(0, 8, 0, &mut none), Err(Error::BufferTooShort));
}

#[test]
fn decode_ignores_the_high_bits() {
    assert_eq!(decode_int(&[0xea], 5), Ok((10, 1)));
    assert_eq!(decode_int(&[0xff, 0x9a, 0x0a], 5), Ok((1337, 3)));
}

#[test]
fn decode_without_terminating_byte_is_buffer_too_short() {
    assert_eq!(decode_int(&[], 8), Err(Error::BufferTooShort));
    assert_eq!(decode_int(&[0x1f], 5), Err(Error::BufferTooShort));
    assert_eq!(decode_int(&[0x1f, 0x9a], 5), Err(Error::BufferTooShort));
    assert_eq!(decode_int(&[0xff, 0x80, 0x80, 0x80], 8), Err(Error::BufferTooShort));
    assert_eq!(decode_int_at(&[0x00, 0x1f, 0x9a], 1, 5), Err(Error::BufferTooShort));
    assert_eq!(decode_int_at(&[0x00], 1, 5), Err(Error::BufferTooShort));
    assert_eq!(decode_int_at(&[0x00], 7, 5), Err(Error::BufferTooShort));
}

#[test]
fn decode_rejects_values_above_u64() {
    // u64::MAX + 1 with a prefix of eight bits.
    assert_eq!(
        decode_int(
            &[0xff, 0x81, 0xfe, 0xff, 0xff, 0xff, 0xff, 0xff, 0xff, 0xff, 0x01],
            8
        ),
        Err(Error::BufferTooShort)
    );
    // A group of seven bits with too great a weight.
    assert_eq!(
        decode_int(
            &[0xff, 0x80, 0x80, 0x80, 0x80, 0x80, 0x80, 0x80, 0x80, 0x80, 0x02],
            8
        ),
        Err(Error::BufferTooShort)
    );
    assert_eq!(
        decode_int(
            &[0xff, 0x80, 0x80, 0x80, 0x80, 0x80, 0x80, 0x80, 0x80, 0x80, 0x80, 0x01],
            8
        ),
        Err(Error::BufferTooShort)
    );
}

#[test]
fn decode_accepts_padded_continuations() {
    assert_eq!(decode_int(&[0xff, 0x80, 0x00], 8), Ok((255, 3)));
    // Zero groups may go on beyond the width of a `u64`.
    assert_eq!(
        decode_int(
            &[0x1f, 0x81, 0x80, 0x80, 0x80, 0x80, 0x80, 0x80, 0x80, 0x80, 0x80, 0x80, 0x00],
            5
        ),
        Ok((32, 13))
    );
    // The largest value, with its last group in full.
    assert_eq!(
        decode_int(
            &[0x00 | 0x07, 0xf8, 0xff, 0xff, 0xff, 0xff, 0xff, 0xff, 0xff, 0xff, 0x01],
            3
        ),
        Ok((u64::MAX, 11))
    );
}
