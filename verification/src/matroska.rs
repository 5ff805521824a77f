//! The typed layer: a Matroska document decoded from the generic tree.
//!
//! A section is decoded from the element that holds it: the children are
//! scanned in order, those with a known identifier are decoded into fields,
//! the others are stepped over with a notice. A field that the section does
//! not hold takes its default; a field that it holds keeps the element that
//! it was decoded from.
//!
//! The rule on the two length fields of the EBML header is fixed here: a
//! document is accepted only where its greatest identifier length is 4 and
//! its greatest size length is 8, the values that Matroska documents carry.

use vstd::prelude::*;
use crate::ebml::diagnostic::Diagnostic;
use crate::ebml::error::{EbmlError, IoErrorKind};
use crate::ebml::primitives::{all_printable, ascii_text, parse_string, parse_u64, u64_of, ValueError};
use crate::ebml::reader::{ByteRange, EbmlReader, EbmlSchema, ElementTree, ParsedElement};
use crate::ebml::source::{window, ByteSource};

pub mod document;
pub mod print_tree;
pub mod printer;

pub use document::{EbmlHeader, Info, MatroskaDocument, MatroskaElement, Segment};
pub use printer::print_matroska_tree;

verus! {

/// The EBML header, the first element of a document.
pub const EBML_HEADER_ID: u64 = 0x1A45_DFA3;

/// The document type, a string: `docType`.
pub const EBML_HEADER_DOCTYPE_ID: u64 = 0x4282;

/// The version of the document type, an integer: `docTypeVersion`.
pub const EBML_HEADER_DOCTYPE_VERSION_ID: u64 = 0x4287;

/// The least version that a reader has to know: `docTypeReadVersion`.
pub const EBML_HEADER_DOCTYPE_READ_VERSION_ID: u64 = 0x4285;

/// The greatest length of an identifier in the document: `EBMLMaxIDLength`.
pub const EBML_HEADER_MAX_ID_LENGTH_ID: u64 = 0x42F2;

/// The greatest length of a size in the document: `EBMLMaxSizeLength`.
pub const EBML_HEADER_MAX_SIZE_LENGTH_ID: u64 = 0x42F3;

/// The segment, the second element of a document.
pub const SEGMENT_ID: u64 = 0x1853_8067;

/// The segment information, an element of the segment.
pub const INFO_ID: u64 = 0x1549_A966;

/// The containers of a Matroska document that the typed layer reads into:
/// the EBML header and the segment.
pub struct MatroskaSchema;

impl EbmlSchema for MatroskaSchema {
    open spec fn master(id: u64) -> bool {
        id == EBML_HEADER_ID || id == SEGMENT_ID
    }

    fn is_master(id: u64) -> (b: bool) {
        id == EBML_HEADER_ID || id == SEGMENT_ID
    }
}

/// The schema of a probe: it knows the EBML header as the one container and
/// takes every other element for a leaf.
pub struct ProbeSchema;

impl EbmlSchema for ProbeSchema {
    open spec fn master(id: u64) -> bool {
        id == EBML_HEADER_ID
    }

    fn is_master(id: u64) -> (b: bool) {
        id == EBML_HEADER_ID
    }
}

/// Why a document could not be decoded.
#[derive(Debug)]
#[allow(inconsistent_fields)]
pub enum MatroskaParseError {
    /// The first element of the document is not the EBML header.
    MissingEbmlHeader,
    /// The EBML header, or the document around it, lacks what is named.
    InvalidEbmlHeader(&'static str),
    /// A section lacks the element that is named.
    MissingElement(&'static str),
    /// A field whose text is fixed holds another text.
    UnexpectedText { field: &'static str, expected: &'static str, found: String },
    /// A field whose value is fixed holds another value.
    UnexpectedValue { field: &'static str, expected: u64, found: u64 },
    /// A payload is no value of the type of its field.
    ValueError(ValueError),
    /// The tree could not be read.
    EbmlError(EbmlError),
}

/// The mathematical value of a [`MatroskaParseError`].
#[allow(inconsistent_fields)]
pub enum DocumentFault {
    MissingEbmlHeader,
    InvalidEbmlHeader(Seq<char>),
    MissingElement(Seq<char>),
    UnexpectedText { field: Seq<char>, expected: Seq<char>, found: Seq<char> },
    UnexpectedValue { field: Seq<char>, expected: u64, found: u64 },
    ValueError(ValueError),
    EbmlError(EbmlError),
}

impl View for MatroskaParseError {
    type V = DocumentFault;

    open spec fn view(&self) -> DocumentFault {
        match self {
            MatroskaParseError::MissingEbmlHeader => DocumentFault::MissingEbmlHeader,
            MatroskaParseError::InvalidEbmlHeader(what) => DocumentFault::InvalidEbmlHeader(what@),
            MatroskaParseError::MissingElement(what) => DocumentFault::MissingElement(what@),
            MatroskaParseError::UnexpectedText { field, expected, found } => {
                DocumentFault::UnexpectedText { field: field@, expected: expected@, found: found@ }
            },
            MatroskaParseError::UnexpectedValue { field, expected, found } => {
                DocumentFault::UnexpectedValue {
                    field: field@,
                    expected: *expected,
                    found: *found,
                }
            },
            MatroskaParseError::ValueError(e) => DocumentFault::ValueError(*e),
            MatroskaParseError::EbmlError(e) => DocumentFault::EbmlError(*e),
        }
    }
}

/// A reader for the typed layer: a tree reader that keeps the notices of
/// what was stepped over.
pub struct MatroskaReader {
    ebml_reader: EbmlReader,
    diagnostics: Vec<Diagnostic>,
}

/// The error of reading a range that the input does not hold in full.
pub open spec fn range_fault(range: ByteRange) -> EbmlError {
    if range.length > usize::MAX {
        EbmlError::InvalidVint
    } else {
        EbmlError::Io(IoErrorKind::UnexpectedEof)
    }
}

impl MatroskaReader {
    /// The bytes that the reader reads.
    pub closed spec fn bytes(&self) -> Seq<u8> {
        self.ebml_reader.bytes()
    }

    /// The read position.
    pub closed spec fn pos(&self) -> u64 {
        self.ebml_reader.pos()
    }

    /// The notices so far, the oldest first.
    pub closed spec fn notices(&self) -> Seq<Diagnostic> {
        self.diagnostics@
    }

    /// A reader over `reader`, at the position where `reader` stands.
    pub fn new(reader: ByteSource) -> (r: Self)
        ensures
            r.bytes() == reader.bytes(),
            r.pos() == reader.pos(),
            r.notices() == Seq::<Diagnostic>::empty(),
    {
        MatroskaReader { ebml_reader: EbmlReader::new(reader), diagnostics: Vec::new() }
    }

    /// The read position.
    pub fn position(&self) -> (p: u64)
        ensures
            p == self.pos(),
    {
        self.ebml_reader.position()
    }

    /// Moves the read position to `pos`, which may lie past the end.
    pub fn seek(&mut self, pos: u64)
        ensures
            final(self).bytes() == old(self).bytes(),
            final(self).notices() == old(self).notices(),
            final(self).pos() == pos,
    {
        self.ebml_reader.seek(pos);
    }

    /// The notices so far, the oldest first.
    pub fn diagnostics(&self) -> (d: &Vec<Diagnostic>)
        ensures
            d@ == self.notices(),
    {
        &self.diagnostics
    }

    /// Records a notice.
    pub fn warn(&mut self, notice: Diagnostic)
        ensures
            final(self).bytes() == old(self).bytes(),
            final(self).pos() == old(self).pos(),
            final(self).notices() == old(self).notices().push(notice),
    {
        self.diagnostics.push(notice);
    }

    /// A copy of the bytes of `range`, with the read position left behind
    /// them.
    ///
    /// Where the input does not hold the whole range the error is what
    /// [`range_fault`] says, and the read position stands at the start of
    /// the range.
    pub fn read_range(&mut self, range: &ByteRange) -> (r: Result<Vec<u8>, MatroskaParseError>)
        ensures
            final(self).bytes() == old(self).bytes(),
            final(self).notices() == old(self).notices(),
            match r {
                Ok(payload) => {
                    &&& window(old(self).bytes(), range.start as int, range.length as int) == Some(
                        payload@,
                    )
                    &&& final(self).pos() == range.start + range.length
                },
                Err(e) => {
                    &&& window(old(self).bytes(), range.start as int, range.length as int) is None
                    &&& final(self).pos() == range.start
                    &&& e@ == DocumentFault::EbmlError(range_fault(*range))
                },
            },
    {
        match self.ebml_reader.read_range(range) {
            Ok(payload) => Ok(payload),
            Err(e) => Err(MatroskaParseError::EbmlError(e)),
        }
    }
}

/// A field that an element of the input holds: the element, and the value
/// that its payload was decoded into.
#[derive(Debug)]
pub struct Field<T> {
    pub raw: ParsedElement,
    pub value: T,
}

/// The mathematical value of a [`Field`].
pub struct FieldModel<V> {
    pub raw: ElementTree,
    pub value: V,
}

impl<T: View> View for Field<T> {
    type V = FieldModel<T::V>;

    open spec fn view(&self) -> FieldModel<T::V> {
        FieldModel { raw: self.raw@, value: self.value@ }
    }
}

/// `parse_func` may return `result` for a payload that holds `bytes`.
pub open spec fn decodes<T, F: Fn(Vec<u8>) -> Result<T, ValueError>>(
    parse_func: F,
    bytes: Seq<u8>,
    result: Result<T, ValueError>,
) -> bool {
    exists|payload: Vec<u8>|
        payload@ == bytes && #[trigger] call_ensures(parse_func, (payload,), result)
}

impl<T> Field<T> {
    /// Reads the payload of `raw` and decodes it with `parse_func`.
    ///
    /// Where the input does not hold the payload in full, the error is that
    /// of [`MatroskaReader::read_range`]. Otherwise the payload is handed to
    /// `parse_func`: the field holds the value that it returns, or the
    /// result is the error that it returns. The read position is left
    /// behind the payload, or at its start where it could not be read.
    pub fn parse<F: Fn(Vec<u8>) -> Result<T, ValueError>>(
        reader: &mut MatroskaReader,
        raw: &ParsedElement,
        parse_func: F,
    ) -> (r: Result<Self, MatroskaParseError>)
        requires
            forall|payload: Vec<u8>| call_requires(parse_func, (payload,)),
        ensures
            final(reader).bytes() == old(reader).bytes(),
            final(reader).notices() == old(reader).notices(),
            match window(old(reader).bytes(), raw.data.start as int, raw.data.length as int) {
                None => {
                    &&& r matches Err(e)
                    &&& e@ == DocumentFault::EbmlError(range_fault(raw.data))
                    &&& final(reader).pos() == raw.data.start
                },
                Some(bytes) => {
                    &&& final(reader).pos() == raw.data.start + raw.data.length
                    &&& match r {
                        Ok(field) => field.raw@ == raw@ && decodes(
                            parse_func,
                            bytes,
                            Ok(field.value),
                        ),
                        Err(MatroskaParseError::ValueError(e)) => decodes(
                            parse_func,
                            bytes,
                            Err(e),
                        ),
                        Err(_) => false,
                    }
                },
            },
    {
        let bytes: Vec<u8> = reader.read_range(&raw.data)?;
        let ghost payload = bytes;
        match parse_func(bytes) {
            Ok(value) => {
                let field = Field { raw: raw.clone(), value };
                assert(call_ensures(parse_func, (payload,), Ok(field.value)));
                Ok(field)
            },
            Err(e) => {
                assert(call_ensures(parse_func, (payload,), Err(e)));
                Err(MatroskaParseError::ValueError(e))
            },
        }
    }
}

/// What decoding the payload of `raw` as text gives.
pub open spec fn string_field(bytes: Seq<u8>, raw: ElementTree) -> Result<
    FieldModel<Seq<char>>,
    DocumentFault,
> {
    match window(bytes, raw.data.start as int, raw.data.length as int) {
        None => Err(DocumentFault::EbmlError(range_fault(raw.data))),
        Some(payload) => if all_printable(payload) {
            Ok(FieldModel { raw, value: ascii_text(payload) })
        } else {
            Err(DocumentFault::ValueError(ValueError::NotPrintable))
        },
    }
}

/// What decoding the payload of `raw` as an unsigned integer gives.
pub open spec fn u64_field(bytes: Seq<u8>, raw: ElementTree) -> Result<
    FieldModel<u64>,
    DocumentFault,
> {
    match window(bytes, raw.data.start as int, raw.data.length as int) {
        None => Err(DocumentFault::EbmlError(range_fault(raw.data))),
        Some(payload) => match u64_of(payload) {
            Ok(value) => Ok(FieldModel { raw, value }),
            Err(e) => Err(DocumentFault::ValueError(e)),
        },
    }
}

/// The view of a result of the typed layer.
pub open spec fn outcome<T: View>(r: Result<T, MatroskaParseError>) -> Result<T::V, DocumentFault> {
    match r {
        Ok(value) => Ok(value@),
        Err(e) => Err(e@),
    }
}

impl Field<String> {
    /// Reads the payload of `raw` as text, which has to be printable ASCII.
    ///
    /// The result is what [`string_field`] describes. The read position is
    /// left behind the payload, or at its start where it could not be read.
    pub fn parse_string(reader: &mut MatroskaReader, raw: &ParsedElement) -> (r: Result<
        Self,
        MatroskaParseError,
    >)
        ensures
            final(reader).bytes() == old(reader).bytes(),
            final(reader).notices() == old(reader).notices(),
            outcome(r) == string_field(old(reader).bytes(), raw@),
            final(reader).pos() == (if window(
                old(reader).bytes(),
                raw.data.start as int,
                raw.data.length as int,
            ) is Some {
                raw.data.start + raw.data.length
            } else {
                raw.data.start as int
            }),
    {
        Self::parse(reader, raw, parse_string)
    }
}

impl Field<u64> {
    /// Reads the payload of `raw` as a big-endian unsigned integer of one to
    /// eight bytes.
    ///
    /// The result is what [`u64_field`] describes. The read position is
    /// left behind the payload, or at its start where it could not be read.
    pub fn parse_u64(reader: &mut MatroskaReader, raw: &ParsedElement) -> (r: Result<
        Self,
        MatroskaParseError,
    >)
        ensures
            final(reader).bytes() == old(reader).bytes(),
            final(reader).notices() == old(reader).notices(),
            outcome(r) == u64_field(old(reader).bytes(), raw@),
            final(reader).pos() == (if window(
                old(reader).bytes(),
                raw.data.start as int,
                raw.data.length as int,
            ) is Some {
                raw.data.start + raw.data.length
            } else {
                raw.data.start as int
            }),
    {
        Self::parse(reader, raw, parse_u64)
    }
}

/// A field that a section may hold: the field that was found, or the default
/// that stands in for it.
#[derive(Debug)]
pub enum OptionalField<T> {
    Present(Field<T>),
    Default(T),
}

/// The mathematical value of an [`OptionalField`].
pub enum OptionalFieldModel<V> {
    Present(FieldModel<V>),
    Default(V),
}

impl<T: View> View for OptionalField<T> {
    type V = OptionalFieldModel<T::V>;

    open spec fn view(&self) -> OptionalFieldModel<T::V> {
        match self {
            OptionalField::Present(field) => OptionalFieldModel::Present(field@),
            OptionalField::Default(value) => OptionalFieldModel::Default(value@),
        }
    }
}

impl<V> OptionalFieldModel<V> {
    /// The value of the field, found or default.
    pub open spec fn value(self) -> V {
        match self {
            OptionalFieldModel::Present(field) => field.value,
            OptionalFieldModel::Default(value) => value,
        }
    }

    /// The field `field` where there is one, else the default `default`.
    pub open spec fn or_default(field: Option<FieldModel<V>>, default: V) -> Self {
        match field {
            Some(f) => OptionalFieldModel::Present(f),
            None => OptionalFieldModel::Default(default),
        }
    }
}

impl<T: Copy> OptionalField<T> {
    /// The value of the field, found or default.
    pub fn value(&self) -> (v: T)
        ensures
            v == match *self {
                OptionalField::Present(field) => field.value,
                OptionalField::Default(value) => value,
            },
    {
        match self {
            OptionalField::Present(field) => field.value,
            OptionalField::Default(value) => *value,
        }
    }

    /// A field that was not found: `value` stands in for it.
    pub fn new_default(value: T) -> (field: Self)
        ensures
            field == OptionalField::Default(value),
    {
        OptionalField::Default(value)
    }

    /// The field `field` where there is one, else the default `default`.
    pub fn new_or_default(field: Option<Field<T>>, default: T) -> (r: Self)
        ensures
            r == match field {
                Some(f) => OptionalField::Present(f),
                None => OptionalField::Default(default),
            },
    {
        match field {
            Some(f) => OptionalField::Present(f),
            None => OptionalField::Default(default),
        }
    }
}

} // verus!
