//! The EBML header as the flat reader reads it: three fields, taken straight
//! from the input.
//!
//! The rule on the two length fields is fixed here: a document is accepted
//! only where its greatest identifier length is 4 and its greatest size
//! length is 8, the values that Matroska documents carry.

use vstd::prelude::*;
use vstd::string::StringExecFns;
use crate::ebml::diagnostic::Diagnostic;
use crate::ebml::element_header::ElementHeader;
use crate::ebml::error::{MatroskaValue, ParseError};
use crate::ebml::matroska_ids::{
    EBML_DOCTYPE_ID, EBML_HEADER_ID, EBML_MAX_ID_LENGTH_ID, EBML_MAX_SIZE_LENGTH_ID,
};
use crate::ebml::matroska_reader::MatroskaReader;
use crate::ebml::primitives::{all_printable, ascii_text};
use crate::ebml::vint::be_value;

verus! {

/// The fields of the EBML header that the flat reader keeps.
#[derive(Debug)]
pub struct EbmlHeader {
    pub doctype: String,
    pub ebml_max_id_length: u64,
    pub ebml_max_size_length: u64,
}

/// The fields of a header while its payload is scanned, with the notices of
/// the elements that were stepped over.
pub struct HeaderFields {
    pub doctype: Seq<char>,
    pub max_id_length: u64,
    pub max_size_length: u64,
    pub unknown: Seq<Diagnostic>,
}

/// What reading a header comes to.
pub enum HeaderOutcome {
    /// A header that the format allows.
    Header(HeaderFields),
    /// The input could not be read as a header.
    Failed(ParseError),
    /// The document type is not `matroska`; the text that was found.
    BadDocType(Seq<char>),
    /// The greatest identifier length is not 4; the value that was found.
    BadMaxIdLength(u64),
    /// The greatest size length is not 8; the value that was found.
    BadMaxSizeLength(u64),
}

/// The fields before any element of the payload was read: no document type,
/// and the lengths at their defaults.
pub open spec fn default_fields() -> HeaderFields {
    HeaderFields {
        doctype: Seq::empty(),
        max_id_length: 4,
        max_size_length: 8,
        unknown: Seq::empty(),
    }
}

/// `fields` after the element with the identifier `id` and the payload
/// `payload` was read, or the error that its payload gives.
///
/// A string has to be printable. An integer of no bytes stands for the
/// default of its field, and one of more than eight bytes is refused. An
/// element that is not known leaves a notice.
pub open spec fn with_field(fields: HeaderFields, id: u32, payload: Seq<u8>) -> Result<
    HeaderFields,
    ParseError,
> {
    if id == EBML_DOCTYPE_ID {
        if all_printable(payload) {
            Ok(HeaderFields { doctype: ascii_text(payload), ..fields })
        } else {
            Err(ParseError::InvalidString)
        }
    } else if id == EBML_MAX_ID_LENGTH_ID || id == EBML_MAX_SIZE_LENGTH_ID {
        if payload.len() > 8 {
            Err(ParseError::IntegerTooLong(payload.len() as u64))
        } else if id == EBML_MAX_ID_LENGTH_ID {
            Ok(
                HeaderFields {
                    max_id_length: if payload.len() == 0 {
                        4
                    } else {
                        be_value(payload) as u64
                    },
                    ..fields
                },
            )
        } else {
            Ok(
                HeaderFields {
                    max_size_length: if payload.len() == 0 {
                        8
                    } else {
                        be_value(payload) as u64
                    },
                    ..fields
                },
            )
        }
    } else {
        Ok(
            HeaderFields {
                unknown: fields.unknown.push(
                    Diagnostic::UnknownChild { parent: EBML_HEADER_ID as u64, id: id as u64 },
                ),
                ..fields
            },
        )
    }
}

/// The fields after the elements between `pos` and `end` were read, starting
/// from `fields`, and the position at which reading stopped.
///
/// The elements have to fill the range exactly: the input may not end before
/// `end` (`UnexpectedEOF`), and no element may reach past `end`
/// (`ElementOverrun`). Reading stops at `end`, or at the element that could
/// not be read.
pub open spec fn fields_at(bytes: Seq<u8>, pos: int, end: int, fields: HeaderFields) -> (
    Result<HeaderFields, ParseError>,
    int,
)
    decreases end - pos,
{
    if pos >= end {
        (Ok(fields), pos)
    } else {
        match ElementHeader::outcome(bytes, pos) {
            Err(e) => (Err(e), pos),
            Ok(None) => (Err(ParseError::UnexpectedEOF), pos),
            Ok(Some(header)) => {
                let data_start = pos + header.header_size;
                let next = data_start + header.data_size.value;
                if next > bytes.len() {
                    (Err(ParseError::UnexpectedEOF), pos)
                } else if next > end {
                    (Err(ParseError::ElementOverrun), pos)
                } else {
                    match with_field(fields, header.id.value, bytes.subrange(data_start, next)) {
                        Err(e) => (Err(e), pos),
                        Ok(updated) => fields_at(bytes, next, end, updated),
                    }
                }
            },
        }
    }
}

/// What the flat reader makes of the input at `pos`, and the position at
/// which reading stopped.
///
/// The element at `pos` has to be the EBML header, with its payload inside
/// the input; anything else, the end of the input included, is
/// `UnexpectedEOF`. After the payload was read the three fields are held to
/// the format: the document type `matroska`, the lengths 4 and 8.
pub open spec fn ebml_header_at(bytes: Seq<u8>, pos: int) -> (HeaderOutcome, int) {
    match ElementHeader::outcome(bytes, pos) {
        Err(e) => (HeaderOutcome::Failed(e), pos),
        Ok(None) => (HeaderOutcome::Failed(ParseError::UnexpectedEOF), pos),
        Ok(Some(header)) => {
            let data_start = pos + header.header_size;
            let end = data_start + header.data_size.value;
            if header.id.value != EBML_HEADER_ID || end > bytes.len() {
                (HeaderOutcome::Failed(ParseError::UnexpectedEOF), pos)
            } else {
                let scan = fields_at(bytes, data_start, end, default_fields());
                match scan.0 {
                    Err(e) => (HeaderOutcome::Failed(e), scan.1),
                    Ok(fields) => if fields.doctype != "matroska"@ {
                        (HeaderOutcome::BadDocType(fields.doctype), end)
                    } else if fields.max_id_length != 4 {
                        (HeaderOutcome::BadMaxIdLength(fields.max_id_length), end)
                    } else if fields.max_size_length != 8 {
                        (HeaderOutcome::BadMaxSizeLength(fields.max_size_length), end)
                    } else {
                        (HeaderOutcome::Header(fields), end)
                    },
                }
            }
        },
    }
}

/// Reading that succeeds from at or before `end` stops at `end`.
pub proof fn lemma_fields_stop(bytes: Seq<u8>, pos: int, end: int, fields: HeaderFields)
    requires
        pos <= end,
        fields_at(bytes, pos, end, fields).0 is Ok,
    ensures
        fields_at(bytes, pos, end, fields).1 == end,
    decreases end - pos,
{
    if pos < end {
        let header = ElementHeader::outcome(bytes, pos)->Ok_0->Some_0;
        let data_start = pos + header.header_size;
        let next = data_start + header.data_size.value;
        let updated = with_field(fields, header.id.value, bytes.subrange(data_start, next))->Ok_0;
        lemma_fields_stop(bytes, next, end, updated);
    }
}

/// Reads the EBML header at the read position, with the three fields that
/// the flat reader keeps.
///
/// The result is what [`ebml_header_at`] describes, and the read position
/// ends where reading stopped. The notices of the elements that were stepped
/// over are recorded with the reader where the header is accepted, and not
/// at all where it is not.
pub fn parse_ebml_header(reader: &mut MatroskaReader) -> (r: Result<EbmlHeader, ParseError>)
    ensures
        final(reader).bytes() == old(reader).bytes(),
        final(reader).pos() == ebml_header_at(old(reader).bytes(), old(reader).pos() as int).1,
        match ebml_header_at(old(reader).bytes(), old(reader).pos() as int).0 {
            HeaderOutcome::Header(fields) => {
                &&& r matches Ok(header)
                &&& header.doctype@ == fields.doctype
                &&& header.ebml_max_id_length == fields.max_id_length
                &&& header.ebml_max_size_length == fields.max_size_length
                &&& final(reader).notices() == old(reader).notices() + fields.unknown
            },
            HeaderOutcome::Failed(e) => {
                &&& r matches Err(found)
                &&& found == e
                &&& final(reader).notices() == old(reader).notices()
            },
            HeaderOutcome::BadDocType(text) => {
                &&& r matches Err(ParseError::InvalidMatroskaValue(MatroskaValue::DocType(found)))
                &&& found@ == text
                &&& final(reader).notices() == old(reader).notices()
            },
            HeaderOutcome::BadMaxIdLength(value) => {
                &&& r matches Err(
                    ParseError::InvalidMatroskaValue(MatroskaValue::MaxIdLength(found)),
                )
                &&& found == value
                &&& final(reader).notices() == old(reader).notices()
            },
            HeaderOutcome::BadMaxSizeLength(value) => {
                &&& r matches Err(
                    ParseError::InvalidMatroskaValue(MatroskaValue::MaxSizeLength(found)),
                )
                &&& found == value
                &&& final(reader).notices() == old(reader).notices()
            },
        },
{
    let ghost bytes = reader.bytes();
    let ghost origin = reader.pos() as int;
    let (header, header_start) = match reader.read_header() {
        Ok(Some(pair)) => pair,
        Ok(None) => {
            return Err(ParseError::UnexpectedEOF);
        },
        Err(e) => {
            return Err(e);
        },
    };
    let data_start: u64 = header_start + header.header_size as u64;
    let len: u64 = reader.len();
    if header.id.value != EBML_HEADER_ID || header.data_size.value > len - data_start {
        reader.seek(header_start);
        return Err(ParseError::UnexpectedEOF);
    }
    let end: u64 = data_start + header.data_size.value;

    let mut doctype: String = String::new();
    let mut ebml_max_id_length: u64 = 4;
    let mut ebml_max_size_length: u64 = 8;
    let mut unknown: Vec<Diagnostic> = Vec::new();
    let ghost start_fields = default_fields();
    assert(start_fields.doctype =~= doctype@ && start_fields.unknown =~= unknown@);

    while reader.position() < end
        invariant
            reader.bytes() == bytes,
            reader.notices() == old(reader).notices(),
            bytes == old(reader).bytes(),
            len == bytes.len(),
            origin == old(reader).pos(),
            ElementHeader::outcome(bytes, origin) == Ok::<Option<ElementHeader>, ParseError>(
                Some(header),
            ),
            header.id.value == EBML_HEADER_ID,
            data_start == origin + header.header_size,
            end == data_start + header.data_size.value,
            data_start <= reader.pos() <= end <= len,
            fields_at(bytes, data_start as int, end as int, default_fields()) == fields_at(
                bytes,
                reader.pos() as int,
                end as int,
                HeaderFields {
                    doctype: doctype@,
                    max_id_length: ebml_max_id_length,
                    max_size_length: ebml_max_size_length,
                    unknown: unknown@,
                },
            ),
        decreases end - reader.pos(),
    {
        let ghost cur = reader.pos() as int;
        let ghost fields = HeaderFields {
            doctype: doctype@,
            max_id_length: ebml_max_id_length,
            max_size_length: ebml_max_size_length,
            unknown: unknown@,
        };
        let (child, child_start) = match reader.read_header() {
            Ok(Some(pair)) => pair,
            Ok(None) => {
                return Err(ParseError::UnexpectedEOF);
            },
            Err(e) => {
                return Err(e);
            },
        };
        let child_data: u64 = child_start + child.header_size as u64;
        let size: u64 = child.data_size.value;
        if size > len - child_data {
            reader.seek(child_start);
            return Err(ParseError::UnexpectedEOF);
        }
        if child_data > end || size > end - child_data {
            reader.seek(child_start);
            return Err(ParseError::ElementOverrun);
        }
        let ghost payload = bytes.subrange(child_data as int, child_data + size);
        let id: u32 = child.id.value;
        if id == EBML_DOCTYPE_ID {
            match reader.read_string(size) {
                Ok(text) => {
                    doctype = text;
                },
                Err(e) => {
                    reader.seek(child_start);
                    return Err(e);
                },
            }
        } else if id == EBML_MAX_ID_LENGTH_ID || id == EBML_MAX_SIZE_LENGTH_ID {
            let value: Option<u64> = if size == 0 {
                None
            } else {
                match reader.read_unsigned_integer(size) {
                    Ok(value) => Some(value),
                    Err(e) => {
                        reader.seek(child_start);
                        return Err(e);
                    },
                }
            };
            if id == EBML_MAX_ID_LENGTH_ID {
                ebml_max_id_length = match value {
                    Some(v) => v,
                    None => 4,
                };
            } else {
                ebml_max_size_length = match value {
                    Some(v) => v,
                    None => 8,
                };
            }
        } else {
            unknown.push(Diagnostic::UnknownChild { parent: EBML_HEADER_ID as u64, id: id as u64 });
            reader.seek(child_data + size);
        }
        assert(with_field(fields, id, payload) == Ok::<HeaderFields, ParseError>(
            HeaderFields {
                doctype: doctype@,
                max_id_length: ebml_max_id_length,
                max_size_length: ebml_max_size_length,
                unknown: unknown@,
            },
        ));
    }
    proof {
        lemma_fields_stop(bytes, data_start as int, end as int, default_fields());
    }
    let ghost fields = HeaderFields {
        doctype: doctype@,
        max_id_length: ebml_max_id_length,
        max_size_length: ebml_max_size_length,
        unknown: unknown@,
    };
    let matroska: String = String::from_str("matroska");
    if doctype != matroska {
        return Err(ParseError::InvalidMatroskaValue(MatroskaValue::DocType(doctype)));
    }
    if ebml_max_id_length != 4 {
        return Err(ParseError::InvalidMatroskaValue(MatroskaValue::MaxIdLength(ebml_max_id_length)));
    }
    if ebml_max_size_length != 8 {
        return Err(
            ParseError::InvalidMatroskaValue(MatroskaValue::MaxSizeLength(ebml_max_size_length)),
        );
    }
    let mut i: usize = 0;
    while i < unknown.len()
        invariant
            reader.bytes() == bytes,
            reader.pos() == end,
            i <= unknown@.len(),
            reader.notices() == old(reader).notices() + unknown@.subrange(0, i as int),
        decreases unknown@.len() - i,
    {
        reader.warn(unknown[i]);
        assert(unknown@.subrange(0, i + 1) =~= unknown@.subrange(0, i as int).push(unknown@[i as int]));
        assert((old(reader).notices() + unknown@.subrange(0, i as int)).push(unknown@[i as int])
            =~= old(reader).notices() + unknown@.subrange(0, i + 1));
        i = i + 1;
    }
    assert(unknown@.subrange(0, unknown@.len() as int) =~= unknown@);
    Ok(EbmlHeader { doctype, ebml_max_id_length, ebml_max_size_length })
}

} // verus!
