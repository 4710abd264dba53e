//! QPACK header compression for HTTP/3, with the BBR transmit hook of the
//! congestion controller.
//!
//! [`qpack`] holds the compression engine: the prefixed-integer codec, the
//! Huffman codec, the static and dynamic tables, and the encoder and decoder
//! that turn an ordered header list into a header block and back.
pub mod bbr;
pub mod qpack;
