//! The generic EBML layer: variable-length integers, element headers and the
//! schema-driven tree reader and writer.

pub mod diagnostic;
pub mod ebml_header;
pub mod element;
pub mod element_header;
pub mod error;
pub mod matroska_ids;
pub mod matroska_reader;
pub mod primitives;
pub mod reader;
pub mod round_trip;
pub mod source;
pub mod vint;
pub mod writer;

pub use error::{EbmlError, ParseError};
pub use reader::{read_element, read_root, ByteRange, EbmlReader, EbmlSchema, ParsedElement};
