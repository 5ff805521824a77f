//! Element headers of the flat reader: an identifier of at most four bytes
//! followed by a size.

use vstd::prelude::*;
use crate::ebml::error::ParseError;
use crate::ebml::source::ByteSource;
use crate::ebml::vint::{read_vint, vint_at, vint_marker, RawVint, VintRead};

verus! {

/// An element identifier of at most four bytes, marker bit included.
#[derive(Debug, Clone, Copy, PartialEq, Eq, Structural)]
pub struct ElementId {
    pub value: u32,
    /// Between one and four bytes.
    pub length: u8,
}

/// The size of an element's payload, marker bit taken off.
#[derive(Debug, Clone, Copy, PartialEq, Eq, Structural)]
pub struct ElementSize {
    pub value: u64,
    /// Between one and eight bytes.
    pub length: u8,
}

/// An identifier and a size, with the number of bytes that both take.
#[derive(Debug, Clone, Copy, PartialEq, Eq, Structural)]
pub struct ElementHeader {
    pub id: ElementId,
    pub data_size: ElementSize,
    /// The sum of the two lengths: between two and twelve.
    pub header_size: u8,
}

impl ElementId {
    /// What `read_from` returns for the input `bytes` read at `pos`.
    pub open spec fn outcome(bytes: Seq<u8>, pos: int) -> Result<Option<ElementId>, ParseError> {
        match vint_at(bytes, pos) {
            VintRead::End => Ok(None),
            VintRead::NoMarker => Err(ParseError::NoVINTMarker),
            VintRead::Truncated => Err(ParseError::UnexpectedEOFInVINT),
            VintRead::Value(v) => if v.length > 4 {
                Err(ParseError::InvalidElementIdLength(v.length))
            } else {
                Ok(Some(ElementId { value: v.value as u32, length: v.length }))
            },
        }
    }

    /// Reads an identifier at the read position.
    ///
    /// `Ok(None)` where the input ends at the read position. On success the
    /// read position stands behind the identifier; otherwise it has not
    /// moved.
    pub fn read_from(reader: &mut ByteSource) -> (r: Result<Option<ElementId>, ParseError>)
        ensures
            r == Self::outcome(old(reader).bytes(), old(reader).pos() as int),
            final(reader).bytes() == old(reader).bytes(),
            final(reader).pos() == match r {
                Ok(Some(id)) => old(reader).pos() + id.length,
                _ => old(reader).pos() as int,
            },
            r matches Ok(Some(id)) ==> {
                &&& 1 <= id.length <= 4
                &&& old(reader).pos() + id.length <= old(reader).bytes().len()
                &&& vint_marker(id.length as int) <= id.value < 2 * vint_marker(id.length as int)
            },
    {
        let start: u64 = reader.position();
        match read_vint(reader, start) {
            VintRead::End => Ok(None),
            VintRead::NoMarker => Err(ParseError::NoVINTMarker),
            VintRead::Truncated => Err(ParseError::UnexpectedEOFInVINT),
            VintRead::Value(v) => {
                if v.length > 4 {
                    return Err(ParseError::InvalidElementIdLength(v.length));
                }
                reader.seek(start + v.length as u64);
                Ok(Some(ElementId { value: v.value as u32, length: v.length }))
            },
        }
    }
}

impl ElementSize {
    /// The size that `raw` stands for: its value without the marker bit of
    /// its length.
    pub fn from_raw_vint(raw: &RawVint) -> (size: Self)
        requires
            1 <= raw.length <= 8,
        ensures
            size.length == raw.length,
            size.value == raw.value & !(1u64 << (7 * raw.length) as u64),
            vint_marker(raw.length as int) <= raw.value < 2 * vint_marker(raw.length as int)
                ==> size.value == raw.value - vint_marker(raw.length as int),
    {
        let shift: u64 = 7 * raw.length as u64;
        let value: u64 = raw.value;
        let masked: u64 = value & !(1u64 << shift);
        proof {
            let length: u64 = raw.length as u64;
            assert(shift == 7 * length && 1 <= length <= 8 ==> ((1u64 << shift) <= value && value
                < 2 * (1u64 << shift) ==> value & !(1u64 << shift) == value - (1u64 << shift)) && (
            length == 1 ==> (1u64 << shift) == 0x80) && (length == 2 ==> (1u64 << shift) == 0x4000)
                && (length == 3 ==> (1u64 << shift) == 0x20_0000) && (length == 4 ==> (1u64
                << shift) == 0x1000_0000) && (length == 5 ==> (1u64 << shift) == 0x08_0000_0000)
                && (length == 6 ==> (1u64 << shift) == 0x0400_0000_0000) && (length == 7 ==> (1u64
                << shift) == 0x02_0000_0000_0000) && (length == 8 ==> (1u64 << shift)
                == 0x0100_0000_0000_0000)) by (bit_vector);
        }
        ElementSize { value: masked, length: raw.length }
    }

    /// What `read_from` returns for the input `bytes` read at `pos`.
    pub open spec fn outcome(bytes: Seq<u8>, pos: int) -> Result<Option<ElementSize>, ParseError> {
        match vint_at(bytes, pos) {
            VintRead::End => Ok(None),
            VintRead::NoMarker => Err(ParseError::NoVINTMarker),
            VintRead::Truncated => Err(ParseError::UnexpectedEOFInVINT),
            VintRead::Value(v) => Ok(
                Some(
                    ElementSize {
                        value: (v.value - vint_marker(v.length as int)) as u64,
                        length: v.length,
                    },
                ),
            ),
        }
    }

    /// Reads a size at the read position.
    ///
    /// `Ok(None)` where the input ends at the read position. On success the
    /// read position stands behind the size; otherwise it has not moved.
    pub fn read_from(reader: &mut ByteSource) -> (r: Result<Option<ElementSize>, ParseError>)
        ensures
            r == Self::outcome(old(reader).bytes(), old(reader).pos() as int),
            final(reader).bytes() == old(reader).bytes(),
            final(reader).pos() == match r {
                Ok(Some(size)) => old(reader).pos() + size.length,
                _ => old(reader).pos() as int,
            },
            r matches Ok(Some(size)) ==> {
                &&& 1 <= size.length <= 8
                &&& old(reader).pos() + size.length <= old(reader).bytes().len()
                &&& size.value < vint_marker(size.length as int)
            },
    {
        let start: u64 = reader.position();
        match read_vint(reader, start) {
            VintRead::End => Ok(None),
            VintRead::NoMarker => Err(ParseError::NoVINTMarker),
            VintRead::Truncated => Err(ParseError::UnexpectedEOFInVINT),
            VintRead::Value(v) => {
                reader.seek(start + v.length as u64);
                Ok(Some(Self::from_raw_vint(&v)))
            },
        }
    }
}

impl ElementHeader {
    /// What `read_from` returns for the input `bytes` read at `pos`.
    ///
    /// No identifier at all is no header. An identifier that the input cuts
    /// short, or one with nothing behind it, is a header cut short.
    pub open spec fn outcome(bytes: Seq<u8>, pos: int) -> Result<Option<ElementHeader>, ParseError> {
        match ElementId::outcome(bytes, pos) {
            Ok(None) => Ok(None),
            Err(ParseError::UnexpectedEOFInVINT) => Err(ParseError::UnexpectedEOFElementHeader),
            Err(e) => Err(e),
            Ok(Some(id)) => match ElementSize::outcome(bytes, pos + id.length) {
                Ok(None) => Err(ParseError::UnexpectedEOFElementHeader),
                Err(e) => Err(e),
                Ok(Some(data_size)) => Ok(
                    Some(
                        ElementHeader {
                            id,
                            data_size,
                            header_size: (id.length + data_size.length) as u8,
                        },
                    ),
                ),
            },
        }
    }

    /// Reads an element header at the read position.
    ///
    /// `Ok(None)` where the input ends at the read position. On success the
    /// read position stands behind the header; otherwise it has not moved.
    pub fn read_from(reader: &mut ByteSource) -> (r: Result<Option<ElementHeader>, ParseError>)
        ensures
            r == Self::outcome(old(reader).bytes(), old(reader).pos() as int),
            final(reader).bytes() == old(reader).bytes(),
            final(reader).pos() == match r {
                Ok(Some(header)) => old(reader).pos() + header.header_size,
                _ => old(reader).pos() as int,
            },
            r matches Ok(Some(header)) ==> {
                &&& header.header_size == header.id.length + header.data_size.length
                &&& 1 <= header.id.length <= 4
                &&& 1 <= header.data_size.length <= 8
                &&& old(reader).pos() + header.header_size <= old(reader).bytes().len()
                &&& header.data_size.value < vint_marker(header.data_size.length as int)
            },
    {
        let header_start: u64 = reader.position();
        let id: ElementId = match ElementId::read_from(reader) {
            Ok(Some(id)) => id,
            Ok(None) => {
                return Ok(None);
            },
            Err(ParseError::UnexpectedEOFInVINT) => {
                return Err(ParseError::UnexpectedEOFElementHeader);
            },
            Err(error) => {
                return Err(error);
            },
        };
        let data_size: ElementSize = match ElementSize::read_from(reader) {
            Ok(Some(size)) => size,
            Ok(None) => {
                reader.seek(header_start);
                return Err(ParseError::UnexpectedEOFElementHeader);
            },
            Err(error) => {
                reader.seek(header_start);
                return Err(error);
            },
        };
        Ok(Some(ElementHeader { id, data_size, header_size: id.length + data_size.length }))
    }
}

} // verus!
