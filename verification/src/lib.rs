//! Decoding and validation of EBML / Matroska container data held in memory.
//!
//! The input is a byte buffer with a read position. Over it stand a flat
//! reader, which lists elements, a tree reader and a tree writer for
//! arbitrary schemas, and a typed layer that decodes a Matroska document and
//! holds it to the rules of the format.

pub mod ebml;
pub mod matroska;
pub mod util;

pub use ebml::error::ParseError;
pub use ebml::matroska_reader::MatroskaReader;
