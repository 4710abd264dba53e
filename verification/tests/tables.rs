use quiche::qpack::dynamic_table::DynamicTable;
use quiche::qpack::static_table::{find, lookup, STATIC_TABLE_LEN};
use quiche::qpack::text::{bytes_eq, lower_eq, to_lower, to_lower_byte};
use quiche::qpack::Error;

fn entry(name: &'static [u8], value: &'static [u8]) -> Result<(&'static [u8], &'static [u8]), Error> {
    Ok((name, value))
}

#[test]
fn static_entries() {
    assert_eq!(STATIC_TABLE_LEN, 99);
    assert_eq!(lookup(0), entry(b":authority", b""));
    assert_eq!(lookup(1), entry(b":path", b"/"));
    assert_eq!(lookup(14), entry(b"set-cookie", b""));
    assert_eq!(lookup(15), entry(b":method", b"CONNECT"));
    assert_eq!(lookup(17), entry(b":method", b"GET"));
    assert_eq!(lookup(23), entry(b":scheme", b"https"));
    assert_eq!(lookup(25), entry(b":status", b"200"));
    assert_eq!(lookup(31), entry(b"accept-encoding", b"gzip, deflate, br"));
    assert_eq!(lookup(52), entry(b"content-type", b"text/html; charset=utf-8"));
    assert_eq!(
        lookup(58),
        entry(
            b"strict-transport-security",
            b"max-age=31536000; includesubdomains; preload"
        )
    );
    assert_eq!(lookup(62), entry(b"x-xss-protection", b"1; mode=block"));
    assert_eq!(lookup(63), entry(b":status", b"100"));
    assert_eq!(lookup(73), entry(b"access-control-allow-credentials", b"FALSE"));
    assert_eq!(
        lookup(85),
        entry(
            b"content-security-policy",
            b"script-src 'none'; object-src 'none'; base-uri 'none'"
        )
    );
    assert_eq!(lookup(95), entry(b"user-agent", b""));
    assert_eq!(lookup(98), entry(b"x-frame-options", b"sameorigin"));
}

#[test]
fn static_lookup_out_of_range() {
    assert_eq!(lookup(99), Err(Error::InvalidStaticTableIndex));
    assert_eq!(lookup(u64::MAX), Err(Error::InvalidStaticTableIndex));
}

#[test]
fn static_names_are_lower_case_and_not_empty() {
    for i in 0..STATIC_TABLE_LEN {
        let (name, _) = lookup(i).unwrap();
        assert!(!name.is_empty());
        assert_eq!(to_lower(name), name.to_vec());
    }
}

#[test]
fn find_is_the_inverse_of_lookup() {
    for i in 0..STATIC_TABLE_LEN {
        let (name, value) = lookup(i).unwrap();
        assert_eq!(find(name, value), Some((i, true)));
    }
}

#[test]
fn find_prefers_an_exact_match() {
    assert_eq!(find(b":method", b"GET"), Some((17, true)));
    assert_eq!(find(b":status", b"500"), Some((71, true)));
    assert_eq!(find(b":authority", b""), Some((0, true)));
}

#[test]
fn find_falls_back_to_the_first_entry_with_the_name() {
    assert_eq!(find(b":method", b"PATCH"), Some((15, false)));
    assert_eq!(find(b":status", b"999"), Some((24, false)));
    assert_eq!(find(b":authority", b"example.com"), Some((0, false)));
    assert_eq!(find(b"user-agent", b"curl"), Some((95, false)));
    // Values are compared as they are.
    assert_eq!(find(b":method", b"get"), Some((15, false)));
}

#[test]
fn find_compares_names_whatever_their_case() {
    assert_eq!(find(b":MeThOd", b"GET"), Some((17, true)));
    assert_eq!(find(b"Content-Type", b"text/css"), Some((51, true)));
    assert_eq!(find(b"LOCATION", b"/"), Some((12, false)));
}

#[test]
fn find_without_match() {
    assert_eq!(find(b"x-custom-header", b"value1"), None);
    assert_eq!(find(b"", b""), None);
    assert_eq!(find(b":metho", b"GET"), None);
    assert_eq!(find(b":methods", b"GET"), None);
}

#[test]
fn ascii_lower_case() {
    assert_eq!(to_lower_byte(b'A'), b'a');
    assert_eq!(to_lower_byte(b'Z'), b'z');
    assert_eq!(to_lower_byte(b'@'), b'@');
    assert_eq!(to_lower_byte(b'['), b'[');
    assert_eq!(to_lower_byte(b'a'), b'a');
    assert_eq!(to_lower_byte(0xc1), 0xc1);
    assert_eq!(to_lower(b"Content-TYPE \xc3\x80"), b"content-type \xc3\x80".to_vec());
    assert!(lower_eq(b"abc", b"AbC"));
    assert!(!lower_eq(b"Abc", b"abc"));
    assert!(!lower_eq(b"abc", b"abcd"));
    assert!(bytes_eq(b"abc", b"abc"));
    assert!(!bytes_eq(b"abc", b"abC"));
    assert!(!bytes_eq(b"abc", b"ab"));
    assert!(bytes_eq(b"", b""));
}

fn field(name: &'static [u8], value: &'static [u8]) -> Result<(&'static [u8], &'static [u8]), Error> {
    Ok((name, value))
}

#[test]
fn dynamic_indices_count_up_from_one() {
    let mut t = DynamicTable::new(1000);
    assert_eq!(t.inserted(), 0);
    assert_eq!(t.insert(b"a", b"1"), Ok(1));
    assert_eq!(t.insert(b"b", b"2"), Ok(2));
    assert_eq!(t.insert(b"c", b"3"), Ok(3));
    assert_eq!(t.len(), 3);
    assert_eq!(t.inserted(), 3);
    assert_eq!(t.lookup_absolute(1), field(b"a", b"1"));
    assert_eq!(t.lookup_absolute(3), field(b"c", b"3"));
    assert_eq!(t.lookup_absolute(0), Err(Error::InvalidStaticTableIndex));
    assert_eq!(t.lookup_absolute(4), Err(Error::InvalidStaticTableIndex));
}

#[test]
fn dynamic_eviction_is_oldest_first_and_indices_are_not_reused() {
    // Room for two entries of 34 bytes.
    let mut t = DynamicTable::new(68);
    assert_eq!(t.capacity(), 68);
    assert_eq!(t.insert(b"a", b"1"), Ok(1));
    assert_eq!(t.insert(b"b", b"2"), Ok(2));
    assert_eq!(t.insert(b"c", b"3"), Ok(3));
    assert_eq!(t.len(), 2);
    assert_eq!(t.lookup_absolute(1), Err(Error::InvalidStaticTableIndex));
    assert_eq!(t.lookup_absolute(2), field(b"b", b"2"));
    assert_eq!(t.lookup_absolute(3), field(b"c", b"3"));
    // An entry that needs all the room evicts everything.
    assert_eq!(t.insert(b"0123456789abcdefgh", b"0123456789abcdefgh"), Ok(4));
    assert_eq!(t.len(), 1);
    assert_eq!(t.lookup_absolute(3), Err(Error::InvalidStaticTableIndex));
    assert_eq!(t.inserted(), 4);
}

#[test]
fn dynamic_insert_fails_when_the_entry_cannot_fit() {
    let mut none = DynamicTable::new(0);
    assert_eq!(none.insert(b"", b""), Err(Error::BufferTooShort));
    assert_eq!(none.inserted(), 0);

    let mut t = DynamicTable::new(40);
    assert_eq!(t.insert(b"a", b"1"), Ok(1));
    assert_eq!(t.insert(b"01234", b"56789"), Err(Error::BufferTooShort));
    // The table is as it was.
    assert_eq!(t.len(), 1);
    assert_eq!(t.inserted(), 1);
    assert_eq!(t.lookup_absolute(1), field(b"a", b"1"));
    assert_eq!(t.insert(b"0123", b"4567"), Ok(2));
    assert_eq!(t.len(), 1);
}

#[test]
fn dynamic_relative_and_post_base_lookups() {
    let mut t = DynamicTable::new(1000);
    t.insert(b"a", b"1").unwrap();
    t.insert(b"b", b"2").unwrap();
    t.insert(b"c", b"3").unwrap();
    t.insert(b"d", b"4").unwrap();
    // Base 2: entries 1 and 2 lie below it, 3 and 4 above.
    assert_eq!(t.lookup_relative(2, 0), field(b"b", b"2"));
    assert_eq!(t.lookup_relative(2, 1), field(b"a", b"1"));
    assert_eq!(t.lookup_relative(2, 2), Err(Error::InvalidStaticTableIndex));
    assert_eq!(t.lookup_relative(0, 0), Err(Error::InvalidStaticTableIndex));
    assert_eq!(t.lookup_relative(9, 0), Err(Error::InvalidStaticTableIndex));
    assert_eq!(t.lookup_relative(9, 5), field(b"d", b"4"));
    assert_eq!(t.lookup_post_base(2, 0), field(b"c", b"3"));
    assert_eq!(t.lookup_post_base(2, 1), field(b"d", b"4"));
    assert_eq!(t.lookup_post_base(2, 2), Err(Error::InvalidStaticTableIndex));
    assert_eq!(t.lookup_post_base(0, 0), field(b"a", b"1"));
    assert_eq!(
        t.lookup_post_base(u64::MAX, 0),
        Err(Error::InvalidStaticTableIndex)
    );
    assert_eq!(
        t.lookup_post_base(1, u64::MAX),
        Err(Error::InvalidStaticTableIndex)
    );
}

#[test]
fn dynamic_set_capacity_evicts() {
    let mut t = DynamicTable::new(1000);
    t.insert(b"a", b"1").unwrap();
    t.insert(b"b", b"2").unwrap();
    t.insert(b"c", b"3").unwrap();
    t.set_capacity(102);
    assert_eq!(t.len(), 3);
    t.set_capacity(101);
    assert_eq!(t.len(), 2);
    assert_eq!(t.lookup_absolute(1), Err(Error::InvalidStaticTableIndex));
    assert_eq!(t.lookup_absolute(2), field(b"b", b"2"));
    t.set_capacity(0);
    assert_eq!(t.len(), 0);
    assert_eq!(t.capacity(), 0);
    assert_eq!(t.inserted(), 3);
    t.set_capacity(500);
    assert_eq!(t.insert(b"e", b"5"), Ok(4));
}

#[test]
fn dynamic_find_prefers_exact_and_newest() {
    let mut t = DynamicTable::new(1000);
    t.insert(b"x-a", b"1").unwrap();
    t.insert(b"x-b", b"1").unwrap();
    t.insert(b"x-a", b"2").unwrap();
    t.insert(b"x-a", b"1").unwrap();
    t.insert(b"X-Upper", b"1").unwrap();
    assert_eq!(t.find(b"x-a", b"1"), Some((4, true)));
    assert_eq!(t.find(b"X-A", b"2"), Some((3, true)));
    assert_eq!(t.find(b"x-a", b"3"), Some((4, false)));
    assert_eq!(t.find(b"x-b", b"2"), Some((2, false)));
    assert_eq!(t.find(b"x-c", b"1"), None);
    // Names are compared in lower case: an entry in upper case matches none.
    assert_eq!(t.find(b"x-upper", b"1"), None);
    assert_eq!(t.find(b"X-Upper", b"1"), None);
}
