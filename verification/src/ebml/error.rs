//! The errors of the EBML layer.

use vstd::prelude::*;

verus! {

/// Why a read or a seek on a byte source failed.
#[derive(Debug, Clone, Copy, PartialEq, Eq, Structural)]
pub enum IoErrorKind {
    /// Fewer bytes were left than the read asked for.
    UnexpectedEof,
    /// A seek that would leave the range of positions.
    InvalidInput,
    /// Any other failure of the underlying source.
    Other,
}

/// What was found in place of a value that the format fixes.
#[derive(Debug)]
pub enum MatroskaValue {
    /// The document type, which has to be `matroska`.
    DocType(String),
    /// The greatest identifier length, which has to be 4.
    MaxIdLength(u64),
    /// The greatest size length, which may be at most 8.
    MaxSizeLength(u64),
}

/// An error of the flat reader.
#[derive(Debug)]
pub enum ParseError {
    /// The byte source failed.
    Io(IoErrorKind),
    /// The first byte of a variable-length integer has no bit set.
    NoVINTMarker,
    /// An element identifier longer than four bytes; the length is given.
    InvalidElementIdLength(u8),
    /// The input ended where an element was required.
    UnexpectedEOF,
    /// The input ended inside a variable-length integer.
    UnexpectedEOFInVINT,
    /// The input ended inside an element header.
    UnexpectedEOFElementHeader,
    /// An unsigned integer of more than eight bytes; the length is given.
    IntegerTooLong(u64),
    /// A string that holds a byte outside the printable ASCII range.
    InvalidString,
    /// An element that reaches past the end of the payload that holds it.
    ElementOverrun,
    /// A header field whose value the format does not allow.
    InvalidMatroskaValue(MatroskaValue),
}

/// An error of the tree reader and writer.
#[derive(Debug, Clone, Copy, PartialEq, Eq, Structural)]
pub enum EbmlError {
    /// The byte source failed.
    Io(IoErrorKind),
    /// A variable-length integer without a marker bit, or a length that the
    /// machine cannot address.
    InvalidVint,
    /// The input ended inside an element header or before the end of a
    /// declared payload.
    UnexpectedEof,
    /// An element reaches past the end of the payload of its parent.
    ElementOverrun,
    /// An identifier that is not a well-formed variable-length integer.
    InvalidId,
    /// A payload too long for a size field of eight bytes.
    SizeTooLarge,
}

} // verus!
