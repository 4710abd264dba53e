//! HTTP/3 header compression (QPACK).
use vstd::prelude::*;

pub mod bits;
pub mod buffer;
pub mod decoder;
pub mod dynamic_table;
pub mod encoder;
pub mod error;
pub mod header;
pub mod huffman;
pub mod huffman_table;
pub mod laws;
pub mod literal;
pub mod prefix_int;
pub mod static_table;
pub mod text;

pub use decoder::Decoder;
pub use encoder::Encoder;
pub use error::Error;
pub use header::{Header, HeaderRef, NameValue};
pub use literal::encode_str;
pub use prefix_int::encode_int;

verus! {

/// Tag of an indexed field line: `1xxxxxxx`.
pub const INDEXED: u8 = 0b1000_0000;

/// Tag of an indexed field line with a post-base index: `0001xxxx`.
pub const INDEXED_WITH_POST_BASE: u8 = 0b0001_0000;

/// Tag of a field line with a literal name: `001xxxxx`.
pub const LITERAL: u8 = 0b0010_0000;

/// Tag of a literal field line with a name reference: `01xxxxxx`.
pub const LITERAL_WITH_NAME_REF: u8 = 0b0100_0000;

} // verus!
