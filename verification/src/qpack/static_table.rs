//! The static table: ninety-nine common header fields, fixed by the
//! protocol, that a header block names by index.
use super::error::Error;
use super::text::{bytes_eq, lower, lower_eq};
use vstd::prelude::*;
use vstd::slice::slice_subrange;

verus! {

/// The number of entries of the static table.
pub const STATIC_TABLE_LEN: u64 = 99;

/// The names and values of all entries, one after the other.
pub const STATIC_TEXT: [u8; 2026] = [
    // 0  :authority:
    58, 97, 117, 116, 104, 111, 114, 105, 116, 121,
    // 1  :path: /
    58, 112, 97, 116, 104, 47,
    // 2  age: 0
    97, 103, 101, 48,
    // 3  content-disposition:
    99, 111, 110, 116, 101, 110, 116, 45, 100, 105, 115, 112, 111, 115, 105, 116, 105, 111, 110,
    // 4  content-length: 0
    99, 111, 110, 116, 101, 110, 116, 45, 108, 101, 110, 103, 116, 104, 48,
    // 5  cookie:
    99, 111, 111, 107, 105, 101,
    // 6  date:
    100, 97, 116, 101,
    // 7  etag:
    101, 116, 97, 103,
    // 8  if-modified-since:
    105, 102, 45, 109, 111, 100, 105, 102, 105, 101, 100, 45, 115, 105, 110, 99, 101,
    // 9  if-none-match:
    105, 102, 45, 110, 111, 110, 101, 45, 109, 97, 116, 99, 104,
    // 10  last-modified:
    108, 97, 115, 116, 45, 109, 111, 100, 105, 102, 105, 101, 100,
    // 11  link:
    108, 105, 110, 107,
    // 12  location:
    108, 111, 99, 97, 116, 105, 111, 110,
    // 13  referer:
    114, 101, 102, 101, 114, 101, 114,
    // 14  set-cookie:
    115, 101, 116, 45, 99, 111, 111, 107, 105, 101,
    // 15  :method: CONNECT
    58, 109, 101, 116, 104, 111, 100, 67, 79, 78, 78, 69, 67, 84,
    // 16  :method: DELETE
    58, 109, 101, 116, 104, 111, 100, 68, 69, 76, 69, 84, 69,
    // 17  :method: GET
    58, 109, 101, 116, 104, 111, 100, 71, 69, 84,
    // 18  :method: HEAD
    58, 109, 101, 116, 104, 111, 100, 72, 69, 65, 68,
    // 19  :method: OPTIONS
    58, 109, 101, 116, 104, 111, 100, 79, 80, 84, 73, 79, 78, 83,
    // 20  :method: POST
    58, 109, 101, 116, 104, 111, 100, 80, 79, 83, 84,
    // 21  :method: PUT
    58, 109, 101, 116, 104, 111, 100, 80, 85, 84,
    // 22  :scheme: http
    58, 115, 99, 104, 101, 109, 101, 104, 116, 116, 112,
    // 23  :scheme: https
    58, 115, 99, 104, 101, 109, 101, 104, 116, 116, 112, 115,
    // 24  :status: 103
    58, 115, 116, 97, 116, 117, 115, 49, 48, 51,
    // 25  :status: 200
    58, 115, 116, 97, 116, 117, 115, 50, 48, 48,
    // 26  :status: 304
    58, 115, 116, 97, 116, 117, 115, 51, 48, 52,
    // 27  :status: 404
    58, 115, 116, 97, 116, 117, 115, 52, 48, 52,
    // 28  :status: 503
    58, 115, 116, 97, 116, 117, 115, 53, 48, 51,
    // 29  accept: */*
    97, 99, 99, 101, 112, 116, 42, 47, 42,
    // 30  accept: application/dns-message
    97, 99, 99, 101, 112, 116, 97, 112, 112, 108, 105, 99, 97, 116, 105, 111, 110, 47, 100, 110,
    115, 45, 109, 101, 115, 115, 97, 103, 101,
    // 31  accept-encoding: gzip, deflate, br
    97, 99, 99, 101, 112, 116, 45, 101, 110, 99, 111, 100, 105, 110, 103, 103, 122, 105, 112, 44,
    32, 100, 101, 102, 108, 97, 116, 101, 44, 32, 98, 114,
    // 32  accept-ranges: bytes
    97, 99, 99, 101, 112, 116, 45, 114, 97, 110, 103, 101, 115, 98, 121, 116, 101, 115,
    // 33  access-control-allow-headers: cache-control
    97, 99, 99, 101, 115, 115, 45, 99, 111, 110, 116, 114, 111, 108, 45, 97, 108, 108, 111, 119,
    45, 104, 101, 97, 100, 101, 114, 115, 99, 97, 99, 104, 101, 45, 99, 111, 110, 116, 114, 111,
    108,
    // 34  access-control-allow-headers: content-type
    97, 99, 99, 101, 115, 115, 45, 99, 111, 110, 116, 114, 111, 108, 45, 97, 108, 108, 111, 119,
    45, 104, 101, 97, 100, 101, 114, 115, 99, 111, 110, 116, 101, 110, 116, 45, 116, 121, 112, 101,
    // 35  access-control-allow-origin: *
    97, 99, 99, 101, 115, 115, 45, 99, 111, 110, 116, 114, 111, 108, 45, 97, 108, 108, 111, 119,
    45, 111, 114, 105, 103, 105, 110, 42,
    // 36  cache-control: max-age=0
    99, 97, 99, 104, 101, 45, 99, 111, 110, 116, 114, 111, 108, 109, 97, 120, 45, 97, 103, 101,
    61, 48,
    // 37  cache-control: max-age=2592000
    99, 97, 99, 104, 101, 45, 99, 111, 110, 116, 114, 111, 108, 109, 97, 120, 45, 97, 103, 101,
    61, 50, 53, 57, 50, 48, 48, 48,
    // 38  cache-control: max-age=604800
    99, 97, 99, 104, 101, 45, 99, 111, 110, 116, 114, 111, 108, 109, 97, 120, 45, 97, 103, 101,
    61, 54, 48, 52, 56, 48, 48,
    // 39  cache-control: no-cache
    99, 97, 99, 104, 101, 45, 99, 111, 110, 116, 114, 111, 108, 110, 111, 45, 99, 97, 99, 104,
    101,
    // 40  cache-control: no-store
    99, 97, 99, 104, 101, 45, 99, 111, 110, 116, 114, 111, 108, 110, 111, 45, 115, 116, 111, 114,
    101,
    // 41  cache-control: public, max-age=31536000
    99, 97, 99, 104, 101, 45, 99, 111, 110, 116, 114, 111, 108, 112, 117, 98, 108, 105, 99, 44,
    32, 109, 97, 120, 45, 97, 103, 101, 61, 51, 49, 53, 51, 54, 48, 48, 48,
    // 42  content-encoding: br
    99, 111, 110, 116, 101, 110, 116, 45, 101, 110, 99, 111, 100, 105, 110, 103, 98, 114,
    // 43  content-encoding: gzip
    99, 111, 110, 116, 101, 110, 116, 45, 101, 110, 99, 111, 100, 105, 110, 103, 103, 122, 105, 112,
    // 44  content-type: application/dns-message
    99, 111, 110, 116, 101, 110, 116, 45, 116, 121, 112, 101, 97, 112, 112, 108, 105, 99, 97, 116,
    105, 111, 110, 47, 100, 110, 115, 45, 109, 101, 115, 115, 97, 103, 101,
    // 45  content-type: application/javascript
    99, 111, 110, 116, 101, 110, 116, 45, 116, 121, 112, 101, 97, 112, 112, 108, 105, 99, 97, 116,
    105, 111, 110, 47, 106, 97, 118, 97, 115, 99, 114, 105, 112, 116,
    // 46  content-type: application/json
    99, 111, 110, 116, 101, 110, 116, 45, 116, 121, 112, 101, 97, 112, 112, 108, 105, 99, 97, 116,
    105, 111, 110, 47, 106, 115, 111, 110,
    // 47  content-type: application/x-www-form-urlencoded
    99, 111, 110, 116, 101, 110, 116, 45, 116, 121, 112, 101, 97, 112, 112, 108, 105, 99, 97, 116,
    105, 111, 110, 47, 120, 45, 119, 119, 119, 45, 102, 111, 114, 109, 45, 117, 114, 108, 101, 110,
    99, 111, 100, 101, 100,
    // 48  content-type: image/gif
    99, 111, 110, 116, 101, 110, 116, 45, 116, 121, 112, 101, 105, 109, 97, 103, 101, 47, 103, 105,
    102,
    // 49  content-type: image/jpeg
    99, 111, 110, 116, 101, 110, 116, 45, 116, 121, 112, 101, 105, 109, 97, 103, 101, 47, 106, 112,
    101, 103,
    // 50  content-type: image/png
    99, 111, 110, 116, 101, 110, 116, 45, 116, 121, 112, 101, 105, 109, 97, 103, 101, 47, 112, 110,
    103,
    // 51  content-type: text/css
    99, 111, 110, 116, 101, 110, 116, 45, 116, 121, 112, 101, 116, 101, 120, 116, 47, 99, 115, 115,
    // 52  content-type: text/html; charset=utf-8
    99, 111, 110, 116, 101, 110, 116, 45, 116, 121, 112, 101, 116, 101, 120, 116, 47, 104, 116, 109,
    108, 59, 32, 99, 104, 97, 114, 115, 101, 116, 61, 117, 116, 102, 45, 56,
    // 53  content-type: text/plain
    99, 111, 110, 116, 101, 110, 116, 45, 116, 121, 112, 101, 116, 101, 120, 116, 47, 112, 108, 97,
    105, 110,
    // 54  content-type: text/plain;charset=utf-8
    99, 111, 110, 116, 101, 110, 116, 45, 116, 121, 112, 101, 116, 101, 120, 116, 47, 112, 108, 97,
    105, 110, 59, 99, 104, 97, 114, 115, 101, 116, 61, 117, 116, 102, 45, 56,
    // 55  range: bytes=0-
    114, 97, 110, 103, 101, 98, 121, 116, 101, 115, 61, 48, 45,
    // 56  strict-transport-security: max-age=31536000
    115, 116, 114, 105, 99, 116, 45, 116, 114, 97, 110, 115, 112, 111, 114, 116, 45, 115, 101, 99,
    117, 114, 105, 116, 121, 109, 97, 120, 45, 97, 103, 101, 61, 51, 49, 53, 51, 54, 48, 48,
    48,
    // 57  strict-transport-security: max-age=31536000; includesubdomains
    115, 116, 114, 105, 99, 116, 45, 116, 114, 97, 110, 115, 112, 111, 114, 116, 45, 115, 101, 99,
    117, 114, 105, 116, 121, 109, 97, 120, 45, 97, 103, 101, 61, 51, 49, 53, 51, 54, 48, 48,
    48, 59, 32, 105, 110, 99, 108, 117, 100, 101, 115, 117, 98, 100, 111, 109, 97, 105, 110, 115,
    // 58  strict-transport-security: max-age=31536000; includesubdomains; preload
    115, 116, 114, 105, 99, 116, 45, 116, 114, 97, 110, 115, 112, 111, 114, 116, 45, 115, 101, 99,
    117, 114, 105, 116, 121, 109, 97, 120, 45, 97, 103, 101, 61, 51, 49, 53, 51, 54, 48, 48,
    48, 59, 32, 105, 110, 99, 108, 117, 100, 101, 115, 117, 98, 100, 111, 109, 97, 105, 110, 115,
    59, 32, 112, 114, 101, 108, 111, 97, 100,
    // 59  vary: accept-encoding
    118, 97, 114, 121, 97, 99, 99, 101, 112, 116, 45, 101, 110, 99, 111, 100, 105, 110, 103,
    // 60  vary: origin
    118, 97, 114, 121, 111, 114, 105, 103, 105, 110,
    // 61  x-content-type-options: nosniff
    120, 45, 99, 111, 110, 116, 101, 110, 116, 45, 116, 121, 112, 101, 45, 111, 112, 116, 105, 111,
    110, 115, 110, 111, 115, 110, 105, 102, 102,
    // 62  x-xss-protection: 1; mode=block
    120, 45, 120, 115, 115, 45, 112, 114, 111, 116, 101, 99, 116, 105, 111, 110, 49, 59, 32, 109,
    111, 100, 101, 61, 98, 108, 111, 99, 107,
    // 63  :status: 100
    58, 115, 116, 97, 116, 117, 115, 49, 48, 48,
    // 64  :status: 204
    58, 115, 116, 97, 116, 117, 115, 50, 48, 52,
    // 65  :status: 206
    58, 115, 116, 97, 116, 117, 115, 50, 48, 54,
    // 66  :status: 302
    58, 115, 116, 97, 116, 117, 115, 51, 48, 50,
    // 67  :status: 400
    58, 115, 116, 97, 116, 117, 115, 52, 48, 48,
    // 68  :status: 403
    58, 115, 116, 97, 116, 117, 115, 52, 48, 51,
    // 69  :status: 421
    58, 115, 116, 97, 116, 117, 115, 52, 50, 49,
    // 70  :status: 425
    58, 115, 116, 97, 116, 117, 115, 52, 50, 53,
    // 71  :status: 500
    58, 115, 116, 97, 116, 117, 115, 53, 48, 48,
    // 72  accept-language:
    97, 99, 99, 101, 112, 116, 45, 108, 97, 110, 103, 117, 97, 103, 101,
    // 73  access-control-allow-credentials: FALSE
    97, 99, 99, 101, 115, 115, 45, 99, 111, 110, 116, 114, 111, 108, 45, 97, 108, 108, 111, 119,
    45, 99, 114, 101, 100, 101, 110, 116, 105, 97, 108, 115, 70, 65, 76, 83, 69,
    // 74  access-control-allow-credentials: TRUE
    97, 99, 99, 101, 115, 115, 45, 99, 111, 110, 116, 114, 111, 108, 45, 97, 108, 108, 111, 119,
    45, 99, 114, 101, 100, 101, 110, 116, 105, 97, 108, 115, 84, 82, 85, 69,
    // 75  access-control-allow-headers: *
    97, 99, 99, 101, 115, 115, 45, 99, 111, 110, 116, 114, 111, 108, 45, 97, 108, 108, 111, 119,
    45, 104, 101, 97, 100, 101, 114, 115, 42,
    // 76  access-control-allow-methods: get
    97, 99, 99, 101, 115, 115, 45, 99, 111, 110, 116, 114, 111, 108, 45, 97, 108, 108, 111, 119,
    45, 109, 101, 116, 104, 111, 100, 115, 103, 101, 116,
    // 77  access-control-allow-methods: get, post, options
    97, 99, 99, 101, 115, 115, 45, 99, 111, 110, 116, 114, 111, 108, 45, 97, 108, 108, 111, 119,
    45, 109, 101, 116, 104, 111, 100, 115, 103, 101, 116, 44, 32, 112, 111, 115, 116, 44, 32, 111,
    112, 116, 105, 111, 110, 115,
    // 78  access-control-allow-methods: options
    97, 99, 99, 101, 115, 115, 45, 99, 111, 110, 116, 114, 111, 108, 45, 97, 108, 108, 111, 119,
    45, 109, 101, 116, 104, 111, 100, 115, 111, 112, 116, 105, 111, 110, 115,
    // 79  access-control-expose-headers: content-length
    97, 99, 99, 101, 115, 115, 45, 99, 111, 110, 116, 114, 111, 108, 45, 101, 120, 112, 111, 115,
    101, 45, 104, 101, 97, 100, 101, 114, 115, 99, 111, 110, 116, 101, 110, 116, 45, 108, 101, 110,
    103, 116, 104,
    // 80  access-control-request-headers: content-type
    97, 99, 99, 101, 115, 115, 45, 99, 111, 110, 116, 114, 111, 108, 45, 114, 101, 113, 117, 101,
    115, 116, 45, 104, 101, 97, 100, 101, 114, 115, 99, 111, 110, 116, 101, 110, 116, 45, 116, 121,
    112, 101,
    // 81  access-control-request-method: get
    97, 99, 99, 101, 115, 115, 45, 99, 111, 110, 116, 114, 111, 108, 45, 114, 101, 113, 117, 101,
    115, 116, 45, 109, 101, 116, 104, 111, 100, 103, 101, 116,
    // 82  access-control-request-method: post
    97, 99, 99, 101, 115, 115, 45, 99, 111, 110, 116, 114, 111, 108, 45, 114, 101, 113, 117, 101,
    115, 116, 45, 109, 101, 116, 104, 111, 100, 112, 111, 115, 116,
    // 83  alt-svc: clear
    97, 108, 116, 45, 115, 118, 99, 99, 108, 101, 97, 114,
    // 84  authorization:
    97, 117, 116, 104, 111, 114, 105, 122, 97, 116, 105, 111, 110,
    // 85  content-security-policy: script-src 'none'; object-src 'none'; base-uri 'none'
    99, 111, 110, 116, 101, 110, 116, 45, 115, 101, 99, 117, 114, 105, 116, 121, 45, 112, 111, 108,
    105, 99, 121, 115, 99, 114, 105, 112, 116, 45, 115, 114, 99, 32, 39, 110, 111, 110, 101, 39,
    59, 32, 111, 98, 106, 101, 99, 116, 45, 115, 114, 99, 32, 39, 110, 111, 110, 101, 39, 59,
    32, 98, 97, 115, 101, 45, 117, 114, 105, 32, 39, 110, 111, 110, 101, 39,
    // 86  early-data: 1
    101, 97, 114, 108, 121, 45, 100, 97, 116, 97, 49,
    // 87  expect-ct:
    101, 120, 112, 101, 99, 116, 45, 99, 116,
    // 88  forwarded:
    102, 111, 114, 119, 97, 114, 100, 101, 100,
    // 89  if-range:
    105, 102, 45, 114, 97, 110, 103, 101,
    // 90  origin:
    111, 114, 105, 103, 105, 110,
    // 91  purpose: prefetch
    112, 117, 114, 112, 111, 115, 101, 112, 114, 101, 102, 101, 116, 99, 104,
    // 92  server:
    115, 101, 114, 118, 101, 114,
    // 93  timing-allow-origin: *
    116, 105, 109, 105, 110, 103, 45, 97, 108, 108, 111, 119, 45, 111, 114, 105, 103, 105, 110, 42,
    // 94  upgrade-insecure-requests: 1
    117, 112, 103, 114, 97, 100, 101, 45, 105, 110, 115, 101, 99, 117, 114, 101, 45, 114, 101, 113,
    117, 101, 115, 116, 115, 49,
    // 95  user-agent:
    117, 115, 101, 114, 45, 97, 103, 101, 110, 116,
    // 96  x-forwarded-for:
    120, 45, 102, 111, 114, 119, 97, 114, 100, 101, 100, 45, 102, 111, 114,
    // 97  x-frame-options: deny
    120, 45, 102, 114, 97, 109, 101, 45, 111, 112, 116, 105, 111, 110, 115, 100, 101, 110, 121,
    // 98  x-frame-options: sameorigin
    120, 45, 102, 114, 97, 109, 101, 45, 111, 112, 116, 105, 111, 110, 115, 115, 97, 109, 101, 111,
    114, 105, 103, 105, 110,
];

/// Where entry `i` lies in `STATIC_TEXT`: where its name begins, where its
/// name ends and its value begins, and where its value ends.
pub open spec fn static_span(i: nat) -> (nat, nat, nat) {
    if i == 0 {
        (0, 10, 10)
    } else if i == 1 {
        (10, 15, 16)
    } else if i == 2 {
        (16, 19, 20)
    } else if i == 3 {
        (20, 39, 39)
    } else if i == 4 {
        (39, 53, 54)
    } else if i == 5 {
        (54, 60, 60)
    } else if i == 6 {
        (60, 64, 64)
    } else if i == 7 {
        (64, 68, 68)
    } else if i == 8 {
        (68, 85, 85)
    } else if i == 9 {
        (85, 98, 98)
    } else if i == 10 {
        (98, 111, 111)
    } else if i == 11 {
        (111, 115, 115)
    } else if i == 12 {
        (115, 123, 123)
    } else if i == 13 {
        (123, 130, 130)
    } else if i == 14 {
        (130, 140, 140)
    } else if i == 15 {
        (140, 147, 154)
    } else if i == 16 {
        (154, 161, 167)
    } else if i == 17 {
        (167, 174, 177)
    } else if i == 18 {
        (177, 184, 188)
    } else if i == 19 {
        (188, 195, 202)
    } else if i == 20 {
        (202, 209, 213)
    } else if i == 21 {
        (213, 220, 223)
    } else if i == 22 {
        (223, 230, 234)
    } else if i == 23 {
        (234, 241, 246)
    } else if i == 24 {
        (246, 253, 256)
    } else if i == 25 {
        (256, 263, 266)
    } else if i == 26 {
        (266, 273, 276)
    } else if i == 27 {
        (276, 283, 286)
    } else if i == 28 {
        (286, 293, 296)
    } else if i == 29 {
        (296, 302, 305)
    } else if i == 30 {
        (305, 311, 334)
    } else if i == 31 {
        (334, 349, 366)
    } else if i == 32 {
        (366, 379, 384)
    } else if i == 33 {
        (384, 412, 425)
    } else if i == 34 {
        (425, 453, 465)
    } else if i == 35 {
        (465, 492, 493)
    } else if i == 36 {
        (493, 506, 515)
    } else if i == 37 {
        (515, 528, 543)
    } else if i == 38 {
        (543, 556, 570)
    } else if i == 39 {
        (570, 583, 591)
    } else if i == 40 {
        (591, 604, 612)
    } else if i == 41 {
        (612, 625, 649)
    } else if i == 42 {
        (649, 665, 667)
    } else if i == 43 {
        (667, 683, 687)
    } else if i == 44 {
        (687, 699, 722)
    } else if i == 45 {
        (722, 734, 756)
    } else if i == 46 {
        (756, 768, 784)
    } else if i == 47 {
        (784, 796, 829)
    } else if i == 48 {
        (829, 841, 850)
    } else if i == 49 {
        (850, 862, 872)
    } else if i == 50 {
        (872, 884, 893)
    } else if i == 51 {
        (893, 905, 913)
    } else if i == 52 {
        (913, 925, 949)
    } else if i == 53 {
        (949, 961, 971)
    } else if i == 54 {
        (971, 983, 1007)
    } else if i == 55 {
        (1007, 1012, 1020)
    } else if i == 56 {
        (1020, 1045, 1061)
    } else if i == 57 {
        (1061, 1086, 1121)
    } else if i == 58 {
        (1121, 1146, 1190)
    } else if i == 59 {
        (1190, 1194, 1209)
    } else if i == 60 {
        (1209, 1213, 1219)
    } else if i == 61 {
        (1219, 1241, 1248)
    } else if i == 62 {
        (1248, 1264, 1277)
    } else if i == 63 {
        (1277, 1284, 1287)
    } else if i == 64 {
        (1287, 1294, 1297)
    } else if i == 65 {
        (1297, 1304, 1307)
    } else if i == 66 {
        (1307, 1314, 1317)
    } else if i == 67 {
        (1317, 1324, 1327)
    } else if i == 68 {
        (1327, 1334, 1337)
    } else if i == 69 {
        (1337, 1344, 1347)
    } else if i == 70 {
        (1347, 1354, 1357)
    } else if i == 71 {
        (1357, 1364, 1367)
    } else if i == 72 {
        (1367, 1382, 1382)
    } else if i == 73 {
        (1382, 1414, 1419)
    } else if i == 74 {
        (1419, 1451, 1455)
    } else if i == 75 {
        (1455, 1483, 1484)
    } else if i == 76 {
        (1484, 1512, 1515)
    } else if i == 77 {
        (1515, 1543, 1561)
    } else if i == 78 {
        (1561, 1589, 1596)
    } else if i == 79 {
        (1596, 1625, 1639)
    } else if i == 80 {
        (1639, 1669, 1681)
    } else if i == 81 {
        (1681, 1710, 1713)
    } else if i == 82 {
        (1713, 1742, 1746)
    } else if i == 83 {
        (1746, 1753, 1758)
    } else if i == 84 {
        (1758, 1771, 1771)
    } else if i == 85 {
        (1771, 1794, 1847)
    } else if i == 86 {
        (1847, 1857, 1858)
    } else if i == 87 {
        (1858, 1867, 1867)
    } else if i == 88 {
        (1867, 1876, 1876)
    } else if i == 89 {
        (1876, 1884, 1884)
    } else if i == 90 {
        (1884, 1890, 1890)
    } else if i == 91 {
        (1890, 1897, 1905)
    } else if i == 92 {
        (1905, 1911, 1911)
    } else if i == 93 {
        (1911, 1930, 1931)
    } else if i == 94 {
        (1931, 1956, 1957)
    } else if i == 95 {
        (1957, 1967, 1967)
    } else if i == 96 {
        (1967, 1982, 1982)
    } else if i == 97 {
        (1982, 1997, 2001)
    } else if i == 98 {
        (2001, 2016, 2026)
    } else {
        (2026, 2026, 2026)
    }
}

/// Where the entry at `index` lies in `STATIC_TEXT`.
fn span_of(index: u64) -> (r: (usize, usize, usize))
    ensures
        r.0 == static_span(index as nat).0,
        r.1 == static_span(index as nat).1,
        r.2 == static_span(index as nat).2,
        r.0 <= r.1 <= r.2 <= STATIC_TEXT@.len(),
{
    if index == 0 {
        (0, 10, 10)
    } else if index == 1 {
        (10, 15, 16)
    } else if index == 2 {
        (16, 19, 20)
    } else if index == 3 {
        (20, 39, 39)
    } else if index == 4 {
        (39, 53, 54)
    } else if index == 5 {
        (54, 60, 60)
    } else if index == 6 {
        (60, 64, 64)
    } else if index == 7 {
        (64, 68, 68)
    } else if index == 8 {
        (68, 85, 85)
    } else if index == 9 {
        (85, 98, 98)
    } else if index == 10 {
        (98, 111, 111)
    } else if index == 11 {
        (111, 115, 115)
    } else if index == 12 {
        (115, 123, 123)
    } else if index == 13 {
        (123, 130, 130)
    } else if index == 14 {
        (130, 140, 140)
    } else if index == 15 {
        (140, 147, 154)
    } else if index == 16 {
        (154, 161, 167)
    } else if index == 17 {
        (167, 174, 177)
    } else if index == 18 {
        (177, 184, 188)
    } else if index == 19 {
        (188, 195, 202)
    } else if index == 20 {
        (202, 209, 213)
    } else if index == 21 {
        (213, 220, 223)
    } else if index == 22 {
        (223, 230, 234)
    } else if index == 23 {
        (234, 241, 246)
    } else if index == 24 {
        (246, 253, 256)
    } else if index == 25 {
        (256, 263, 266)
    } else if index == 26 {
        (266, 273, 276)
    } else if index == 27 {
        (276, 283, 286)
    } else if index == 28 {
        (286, 293, 296)
    } else if index == 29 {
        (296, 302, 305)
    } else if index == 30 {
        (305, 311, 334)
    } else if index == 31 {
        (334, 349, 366)
    } else if index == 32 {
        (366, 379, 384)
    } else if index == 33 {
        (384, 412, 425)
    } else if index == 34 {
        (425, 453, 465)
    } else if index == 35 {
        (465, 492, 493)
    } else if index == 36 {
        (493, 506, 515)
    } else if index == 37 {
        (515, 528, 543)
    } else if index == 38 {
        (543, 556, 570)
    } else if index == 39 {
        (570, 583, 591)
    } else if index == 40 {
        (591, 604, 612)
    } else if index == 41 {
        (612, 625, 649)
    } else if index == 42 {
        (649, 665, 667)
    } else if index == 43 {
        (667, 683, 687)
    } else if index == 44 {
        (687, 699, 722)
    } else if index == 45 {
        (722, 734, 756)
    } else if index == 46 {
        (756, 768, 784)
    } else if index == 47 {
        (784, 796, 829)
    } else if index == 48 {
        (829, 841, 850)
    } else if index == 49 {
        (850, 862, 872)
    } else if index == 50 {
        (872, 884, 893)
    } else if index == 51 {
        (893, 905, 913)
    } else if index == 52 {
        (913, 925, 949)
    } else if index == 53 {
        (949, 961, 971)
    } else if index == 54 {
        (971, 983, 1007)
    } else if index == 55 {
        (1007, 1012, 1020)
    } else if index == 56 {
        (1020, 1045, 1061)
    } else if index == 57 {
        (1061, 1086, 1121)
    } else if index == 58 {
        (1121, 1146, 1190)
    } else if index == 59 {
        (1190, 1194, 1209)
    } else if index == 60 {
        (1209, 1213, 1219)
    } else if index == 61 {
        (1219, 1241, 1248)
    } else if index == 62 {
        (1248, 1264, 1277)
    } else if index == 63 {
        (1277, 1284, 1287)
    } else if index == 64 {
        (1287, 1294, 1297)
    } else if index == 65 {
        (1297, 1304, 1307)
    } else if index == 66 {
        (1307, 1314, 1317)
    } else if index == 67 {
        (1317, 1324, 1327)
    } else if index == 68 {
        (1327, 1334, 1337)
    } else if index == 69 {
        (1337, 1344, 1347)
    } else if index == 70 {
        (1347, 1354, 1357)
    } else if index == 71 {
        (1357, 1364, 1367)
    } else if index == 72 {
        (1367, 1382, 1382)
    } else if index == 73 {
        (1382, 1414, 1419)
    } else if index == 74 {
        (1419, 1451, 1455)
    } else if index == 75 {
        (1455, 1483, 1484)
    } else if index == 76 {
        (1484, 1512, 1515)
    } else if index == 77 {
        (1515, 1543, 1561)
    } else if index == 78 {
        (1561, 1589, 1596)
    } else if index == 79 {
        (1596, 1625, 1639)
    } else if index == 80 {
        (1639, 1669, 1681)
    } else if index == 81 {
        (1681, 1710, 1713)
    } else if index == 82 {
        (1713, 1742, 1746)
    } else if index == 83 {
        (1746, 1753, 1758)
    } else if index == 84 {
        (1758, 1771, 1771)
    } else if index == 85 {
        (1771, 1794, 1847)
    } else if index == 86 {
        (1847, 1857, 1858)
    } else if index == 87 {
        (1858, 1867, 1867)
    } else if index == 88 {
        (1867, 1876, 1876)
    } else if index == 89 {
        (1876, 1884, 1884)
    } else if index == 90 {
        (1884, 1890, 1890)
    } else if index == 91 {
        (1890, 1897, 1905)
    } else if index == 92 {
        (1905, 1911, 1911)
    } else if index == 93 {
        (1911, 1930, 1931)
    } else if index == 94 {
        (1931, 1956, 1957)
    } else if index == 95 {
        (1957, 1967, 1967)
    } else if index == 96 {
        (1967, 1982, 1982)
    } else if index == 97 {
        (1982, 1997, 2001)
    } else if index == 98 {
        (2001, 2016, 2026)
    } else {
        (2026, 2026, 2026)
    }
}

/// The name of entry `i`.
#[verifier::opaque]
pub open spec fn static_name(i: nat) -> Seq<u8>
    recommends
        i < STATIC_TABLE_LEN,
{
    STATIC_TEXT@.subrange(static_span(i).0 as int, static_span(i).1 as int)
}

/// The value of entry `i`.
#[verifier::opaque]
pub open spec fn static_value(i: nat) -> Seq<u8>
    recommends
        i < STATIC_TABLE_LEN,
{
    STATIC_TEXT@.subrange(static_span(i).1 as int, static_span(i).2 as int)
}

/// The first entry from `i` on with the name `name` and the value `value`.
pub open spec fn first_exact_from(name: Seq<u8>, value: Seq<u8>, i: nat) -> Option<nat>
    decreases STATIC_TABLE_LEN - i,
{
    if i >= STATIC_TABLE_LEN {
        None
    } else if static_name(i) == name && static_value(i) == value {
        Some(i)
    } else {
        first_exact_from(name, value, i + 1)
    }
}

/// The first entry from `i` on with the name `name`.
pub open spec fn first_named_from(name: Seq<u8>, i: nat) -> Option<nat>
    decreases STATIC_TABLE_LEN - i,
{
    if i >= STATIC_TABLE_LEN {
        None
    } else if static_name(i) == name {
        Some(i)
    } else {
        first_named_from(name, i + 1)
    }
}

/// The best match of the static table for a header: the first entry with
/// the header's name, in lower case, and its value, marked `true`; where
/// there is none, the first entry with that name, marked `false`; `None`
/// where no entry has the name.
#[verifier::opaque]
pub open spec fn static_match(name: Seq<u8>, value: Seq<u8>) -> Option<(u64, bool)> {
    match first_exact_from(lower(name), value, 0) {
        Some(i) => Some((i as u64, true)),
        None => match first_named_from(lower(name), 0) {
            Some(i) => Some((i as u64, false)),
            None => None,
        },
    }
}

/// A search that finds an entry finds the first that fits, and one that
/// finds none shows that none fits.
pub proof fn lemma_first_exact(name: Seq<u8>, value: Seq<u8>, i: nat)
    ensures
        match first_exact_from(name, value, i) {
            Some(k) => i <= k < STATIC_TABLE_LEN && static_name(k) == name && static_value(k)
                == value && forall|j: nat|
                i <= j < k ==> !(static_name(j) == name && static_value(j) == value),
            None => forall|j: nat|
                i <= j < STATIC_TABLE_LEN ==> !(static_name(j) == name && static_value(j)
                    == value),
        },
    decreases STATIC_TABLE_LEN - i,
{
    if i < STATIC_TABLE_LEN && !(static_name(i) == name && static_value(i) == value) {
        lemma_first_exact(name, value, i + 1);
    }
}

/// A search by name that finds an entry finds the first with that name, and
/// one that finds none shows that none has it.
pub proof fn lemma_first_named(name: Seq<u8>, i: nat)
    ensures
        match first_named_from(name, i) {
            Some(k) => i <= k < STATIC_TABLE_LEN && static_name(k) == name && forall|j: nat|
                i <= j < k ==> static_name(j) != name,
            None => forall|j: nat| i <= j < STATIC_TABLE_LEN ==> static_name(j) != name,
        },
    decreases STATIC_TABLE_LEN - i,
{
    if i < STATIC_TABLE_LEN && static_name(i) != name {
        lemma_first_named(name, i + 1);
    }
}

/// The entry that the best match names has the header's name in lower case;
/// where the match is marked `true`, it is the first entry that has its
/// value too, and where it is marked `false`, no entry has both.
pub proof fn lemma_static_match(name: Seq<u8>, value: Seq<u8>)
    ensures
        match static_match(name, value) {
            Some((i, exact)) => i < STATIC_TABLE_LEN && static_name(i as nat) == lower(name) && (
            exact ==> static_value(i as nat) == value),
            None => true,
        },
        forall|j: nat|
            j < STATIC_TABLE_LEN && static_name(j) == lower(name) && static_value(j) == value
                ==> static_match(name, value) is Some && static_match(name, value)->Some_0.1
                && static_match(name, value)->Some_0.0 <= j,
{
    reveal(static_match);
    lemma_first_exact(lower(name), value, 0);
    lemma_first_named(lower(name), 0);
}

/// The name and the value of the entry at `index`;
/// `InvalidStaticTableIndex` where the table has no such entry.
pub fn lookup(index: u64) -> (r: Result<(&'static [u8], &'static [u8]), Error>)
    ensures
        r is Ok <==> index < STATIC_TABLE_LEN,
        r is Ok ==> r->Ok_0.0@ == static_name(index as nat) && r->Ok_0.1@ == static_value(
            index as nat,
        ),
        r is Err ==> r->Err_0 == Error::InvalidStaticTableIndex,
{
    if index >= STATIC_TABLE_LEN {
        return Err(Error::InvalidStaticTableIndex);
    }
    proof {
        reveal(static_name);
        reveal(static_value);
    }
    let text: &'static [u8] = &STATIC_TEXT;
    let (a, b, c) = span_of(index);
    Ok((slice_subrange(text, a, b), slice_subrange(text, b, c)))
}

/// The best match of the static table for the header `name: value`: the
/// index of an entry, and whether its value matches too. Names match
/// whatever their case.
pub fn find(name: &[u8], value: &[u8]) -> (r: Option<(u64, bool)>)
    ensures
        r == static_match(name@, value@),
{
    let mut named: Option<u64> = None;
    let mut i: u64 = 0;
    while i < STATIC_TABLE_LEN
        invariant
            i <= STATIC_TABLE_LEN,
            first_exact_from(lower(name@), value@, 0) == first_exact_from(
                lower(name@),
                value@,
                i as nat,
            ),
            match named {
                Some(k) => first_named_from(lower(name@), 0) == Some(k as nat),
                None => first_named_from(lower(name@), 0) == first_named_from(
                    lower(name@),
                    i as nat,
                ),
            },
        decreases STATIC_TABLE_LEN - i,
    {
        let entry = match lookup(i) {
            Ok(e) => e,
            Err(_) => {
                proof {
                    reveal(static_match);
                }
                return None;
            },
        };
        if lower_eq(entry.0, name) {
            if bytes_eq(entry.1, value) {
                proof {
                    reveal(static_match);
                }
                return Some((i, true));
            }
            if named.is_none() {
                named = Some(i);
            }
        }
        i = i + 1;
    }
    proof {
        reveal(static_match);
    }
    match named {
        Some(k) => Some((k, false)),
        None => None,
    }
}

} // verus!
