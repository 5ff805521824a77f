//! The identifiers that the flat reader knows.

use vstd::prelude::*;

verus! {

/// The EBML header, the first element of a document.
pub const EBML_HEADER_ID: u32 = 0x1A45_DFA3;

/// The document type, a string.
pub const EBML_DOCTYPE_ID: u32 = 0x4282;

/// The greatest length of an identifier in the document.
pub const EBML_MAX_ID_LENGTH_ID: u32 = 0x42F2;

/// The greatest length of a size in the document.
pub const EBML_MAX_SIZE_LENGTH_ID: u32 = 0x42F3;

} // verus!
