//! The error type shared by every QPACK operation.
use vstd::prelude::*;

verus! {

/// A QPACK error.
#[derive(Clone, Copy, Debug, PartialEq, Eq, Structural)]
pub enum Error {
    /// The provided buffer is too short.
    BufferTooShort,
    /// The provided string would not be smaller after Huffman encoding.
    InflatedHuffmanEncoding,
    /// The header block's Huffman encoding is invalid.
    InvalidHuffmanEncoding,
    /// The table index provided doesn't exist.
    InvalidStaticTableIndex,
    /// The decoded header name or value is not valid.
    InvalidHeaderValue,
    /// The decoded header list exceeded the size limit.
    HeaderListTooLarge,
}

impl Error {
    /// The name of the error kind, as text.
    pub fn name(&self) -> (r: String)
        ensures
            r@ == error_name(*self),
    {
        match self {
            Error::BufferTooShort => "BufferTooShort".to_owned(),
            Error::InflatedHuffmanEncoding => "InflatedHuffmanEncoding".to_owned(),
            Error::InvalidHuffmanEncoding => "InvalidHuffmanEncoding".to_owned(),
            Error::InvalidStaticTableIndex => "InvalidStaticTableIndex".to_owned(),
            Error::InvalidHeaderValue => "InvalidHeaderValue".to_owned(),
            Error::HeaderListTooLarge => "HeaderListTooLarge".to_owned(),
        }
    }
}

/// The text that names each error kind.
pub open spec fn error_name(e: Error) -> Seq<char> {
    match e {
        Error::BufferTooShort => "BufferTooShort"@,
        Error::InflatedHuffmanEncoding => "InflatedHuffmanEncoding"@,
        Error::InvalidHuffmanEncoding => "InvalidHuffmanEncoding"@,
        Error::InvalidStaticTableIndex => "InvalidStaticTableIndex"@,
        Error::InvalidHeaderValue => "InvalidHeaderValue"@,
        Error::HeaderListTooLarge => "HeaderListTooLarge"@,
    }
}

/// The byte-buffer layer's only error; it carries no data.
#[verifier::external_type_specification]
#[verifier::external_body]
pub struct ExBufferTooShortError(octets::BufferTooShortError);

impl From<octets::BufferTooShortError> for Error {
    fn from(_err: octets::BufferTooShortError) -> (r: Error) {
        Error::BufferTooShort
    }
}

impl vstd::std_specs::convert::FromSpecImpl<octets::BufferTooShortError> for Error {
    open spec fn obeys_from_spec() -> bool {
        true
    }

    open spec fn from_spec(_err: octets::BufferTooShortError) -> Error {
        Error::BufferTooShort
    }
}

} // verus!
