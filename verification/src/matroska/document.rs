//! The sections of a Matroska document and the document itself.

use vstd::prelude::*;
use vstd::string::StringExecFns;
use crate::ebml::diagnostic::Diagnostic;
use crate::ebml::error::EbmlError;
use crate::ebml::reader::{elements_at, lemma_trees_of, read_root, ElementTree, ParsedElement};
use crate::ebml::source::ByteSource;
use crate::matroska::{
    outcome, string_field, u64_field, DocumentFault, Field, FieldModel, MatroskaParseError,
    MatroskaReader, MatroskaSchema, OptionalField, OptionalFieldModel, EBML_HEADER_DOCTYPE_ID,
    EBML_HEADER_DOCTYPE_READ_VERSION_ID, EBML_HEADER_DOCTYPE_VERSION_ID, EBML_HEADER_ID,
    EBML_HEADER_MAX_ID_LENGTH_ID, EBML_HEADER_MAX_SIZE_LENGTH_ID, INFO_ID, SEGMENT_ID,
};

verus! {

/// A section of a document that is decoded from the element that holds it.
pub trait MatroskaElement: Sized {
    /// The identifier of the element that holds the section.
    const ID: u64;

    /// Decodes the section from `raw`, which has to be an element with the
    /// identifier of the section.
    ///
    /// The read position is left where it was. Where the section cannot be
    /// decoded, no notice is recorded.
    fn parse(reader: &mut MatroskaReader, raw: &ParsedElement) -> (r: Result<
        Self,
        MatroskaParseError,
    >)
        requires
            raw.id == Self::ID,
        ensures
            final(reader).bytes() == old(reader).bytes(),
            final(reader).pos() == old(reader).pos(),
            r is Err ==> final(reader).notices() == old(reader).notices(),
    ;
}

/// The EBML header: what kind of document this is and what its reader has to
/// be able to read.
#[derive(Debug)]
pub struct EbmlHeader {
    pub raw: ParsedElement,
    pub doctype: Field<String>,
    pub doctype_version: OptionalField<u64>,
    pub doctype_read_version: OptionalField<u64>,
    pub max_id_length: OptionalField<u64>,
    pub max_size_length: OptionalField<u64>,
}

/// The mathematical value of an [`EbmlHeader`].
pub struct EbmlHeaderModel {
    pub raw: ElementTree,
    pub doctype: FieldModel<Seq<char>>,
    pub doctype_version: OptionalFieldModel<u64>,
    pub doctype_read_version: OptionalFieldModel<u64>,
    pub max_id_length: OptionalFieldModel<u64>,
    pub max_size_length: OptionalFieldModel<u64>,
}

impl View for EbmlHeader {
    type V = EbmlHeaderModel;

    open spec fn view(&self) -> EbmlHeaderModel {
        EbmlHeaderModel {
            raw: self.raw@,
            doctype: self.doctype@,
            doctype_version: self.doctype_version@,
            doctype_read_version: self.doctype_read_version@,
            max_id_length: self.max_id_length@,
            max_size_length: self.max_size_length@,
        }
    }
}

/// The fields of an EBML header while its children are scanned, with the
/// notices of the children that were stepped over.
pub struct HeaderScan {
    pub doctype: Option<FieldModel<Seq<char>>>,
    pub doctype_version: Option<FieldModel<u64>>,
    pub doctype_read_version: Option<FieldModel<u64>>,
    pub max_id_length: Option<FieldModel<u64>>,
    pub max_size_length: Option<FieldModel<u64>>,
    pub unknown: Seq<Diagnostic>,
}

/// The scan before any child was read.
pub open spec fn empty_scan() -> HeaderScan {
    HeaderScan {
        doctype: None,
        doctype_version: None,
        doctype_read_version: None,
        max_id_length: None,
        max_size_length: None,
        unknown: Seq::empty(),
    }
}

/// What decoding `raw` as an integer field with the default `default`
/// gives: an element without payload holds the default.
pub open spec fn integer_field(bytes: Seq<u8>, raw: ElementTree, default: u64) -> Result<
    FieldModel<u64>,
    DocumentFault,
> {
    if raw.data.length == 0 {
        Ok(FieldModel { raw, value: default })
    } else {
        u64_field(bytes, raw)
    }
}

/// `scan` after the child `child` was read, or the error of decoding it.
///
/// A later child with the identifier of an earlier one takes its place. A
/// child with an identifier that the header does not know leaves a notice.
pub open spec fn with_child(bytes: Seq<u8>, scan: HeaderScan, child: ElementTree) -> Result<
    HeaderScan,
    DocumentFault,
> {
    if child.id == EBML_HEADER_DOCTYPE_ID {
        match string_field(bytes, child) {
            Ok(field) => Ok(HeaderScan { doctype: Some(field), ..scan }),
            Err(e) => Err(e),
        }
    } else if child.id == EBML_HEADER_DOCTYPE_VERSION_ID {
        match integer_field(bytes, child, 1) {
            Ok(field) => Ok(HeaderScan { doctype_version: Some(field), ..scan }),
            Err(e) => Err(e),
        }
    } else if child.id == EBML_HEADER_DOCTYPE_READ_VERSION_ID {
        match integer_field(bytes, child, 1) {
            Ok(field) => Ok(HeaderScan { doctype_read_version: Some(field), ..scan }),
            Err(e) => Err(e),
        }
    } else if child.id == EBML_HEADER_MAX_ID_LENGTH_ID {
        match integer_field(bytes, child, 4) {
            Ok(field) => Ok(HeaderScan { max_id_length: Some(field), ..scan }),
            Err(e) => Err(e),
        }
    } else if child.id == EBML_HEADER_MAX_SIZE_LENGTH_ID {
        match integer_field(bytes, child, 8) {
            Ok(field) => Ok(HeaderScan { max_size_length: Some(field), ..scan }),
            Err(e) => Err(e),
        }
    } else {
        Ok(
            HeaderScan {
                unknown: scan.unknown.push(
                    Diagnostic::UnknownChild { parent: EBML_HEADER_ID, id: child.id },
                ),
                ..scan
            },
        )
    }
}

/// `scan` after the children from the index `from` on were read, in order,
/// or the first error of decoding one.
pub open spec fn scan_from(bytes: Seq<u8>, children: Seq<ElementTree>, from: nat, scan: HeaderScan)
    -> Result<HeaderScan, DocumentFault>
    decreases children.len() - from,
{
    if from >= children.len() {
        Ok(scan)
    } else {
        match with_child(bytes, scan, children[from as int]) {
            Err(e) => Err(e),
            Ok(next) => scan_from(bytes, children, from + 1, next),
        }
    }
}

/// The children of `raw`; none for a leaf.
pub open spec fn children_of(raw: ElementTree) -> Seq<ElementTree> {
    match raw.children {
        Some(children) => children,
        None => Seq::empty(),
    }
}

/// The header that a finished scan of the children of `raw` comes to.
///
/// The document type has to be there, and has to be `matroska`. The other
/// fields take their defaults where they are not there: the versions 1, the
/// greatest identifier length 4, the greatest size length 8. The two lengths
/// have to be 4 and 8.
pub open spec fn header_from(raw: ElementTree, scan: HeaderScan) -> Result<
    EbmlHeaderModel,
    DocumentFault,
> {
    match scan.doctype {
        None => Err(DocumentFault::InvalidEbmlHeader("missing docType"@)),
        Some(doctype) => {
            let max_id_length = OptionalFieldModel::or_default(scan.max_id_length, 4);
            let max_size_length = OptionalFieldModel::or_default(scan.max_size_length, 8);
            if doctype.value != "matroska"@ {
                Err(
                    DocumentFault::UnexpectedText {
                        field: "docType"@,
                        expected: "matroska"@,
                        found: doctype.value,
                    },
                )
            } else if max_id_length.value() != 4 {
                Err(
                    DocumentFault::UnexpectedValue {
                        field: "EBMLMaxIDLength"@,
                        expected: 4,
                        found: max_id_length.value(),
                    },
                )
            } else if max_size_length.value() != 8 {
                Err(
                    DocumentFault::UnexpectedValue {
                        field: "EBMLMaxSizeLength"@,
                        expected: 8,
                        found: max_size_length.value(),
                    },
                )
            } else {
                Ok(
                    EbmlHeaderModel {
                        raw,
                        doctype,
                        doctype_version: OptionalFieldModel::or_default(scan.doctype_version, 1),
                        doctype_read_version: OptionalFieldModel::or_default(
                            scan.doctype_read_version,
                            1,
                        ),
                        max_id_length,
                        max_size_length,
                    },
                )
            }
        },
    }
}

/// The EBML header that `raw` holds, with the notices of the children that
/// were stepped over.
pub open spec fn ebml_header_of(bytes: Seq<u8>, raw: ElementTree) -> Result<
    (EbmlHeaderModel, Seq<Diagnostic>),
    DocumentFault,
> {
    match scan_from(bytes, children_of(raw), 0, empty_scan()) {
        Err(e) => Err(e),
        Ok(scan) => match header_from(raw, scan) {
            Err(e) => Err(e),
            Ok(header) => Ok((header, scan.unknown)),
        },
    }
}

/// True where the EBML header knows the identifier `id`.
pub open spec fn known_in_header(id: u64) -> bool {
    id == EBML_HEADER_DOCTYPE_ID || id == EBML_HEADER_DOCTYPE_VERSION_ID || id
        == EBML_HEADER_DOCTYPE_READ_VERSION_ID || id == EBML_HEADER_MAX_ID_LENGTH_ID || id
        == EBML_HEADER_MAX_SIZE_LENGTH_ID
}

/// A child that the header does not know is stepped over: it cannot fail
/// the scan, it leaves every field as it was, and it leaves a notice. Its
/// payload is not looked at.
pub proof fn lemma_unknown_child_is_skipped(bytes: Seq<u8>, scan: HeaderScan, child: ElementTree)
    requires
        !known_in_header(child.id),
    ensures
        with_child(bytes, scan, child) == Ok::<HeaderScan, DocumentFault>(
            HeaderScan {
                unknown: scan.unknown.push(
                    Diagnostic::UnknownChild { parent: EBML_HEADER_ID, id: child.id },
                ),
                ..scan
            },
        ),
{
}

/// A header with a document type is accepted exactly where the type is
/// `matroska` and the two lengths, found or default, are 4 and 8. A field
/// that was not found is then at its default: the versions at 1, the lengths
/// at 4 and 8.
pub proof fn lemma_header_rules(raw: ElementTree, scan: HeaderScan)
    requires
        scan.doctype is Some,
    ensures
        header_from(raw, scan) is Ok <==> {
            &&& scan.doctype->Some_0.value == "matroska"@
            &&& (scan.max_id_length matches Some(field) ==> field.value == 4)
            &&& (scan.max_size_length matches Some(field) ==> field.value == 8)
        },
        scan.doctype->Some_0.value != "matroska"@ ==> header_from(raw, scan) == Err::<
            EbmlHeaderModel,
            DocumentFault,
        >(
            DocumentFault::UnexpectedText {
                field: "docType"@,
                expected: "matroska"@,
                found: scan.doctype->Some_0.value,
            },
        ),
        header_from(raw, scan) matches Ok(header) ==> {
            &&& header.doctype == scan.doctype->Some_0
            &&& (scan.doctype_version is None ==> header.doctype_version
                == OptionalFieldModel::Default(1u64))
            &&& (scan.doctype_read_version is None ==> header.doctype_read_version
                == OptionalFieldModel::Default(1u64))
            &&& (scan.max_id_length is None ==> header.max_id_length == OptionalFieldModel::Default(
                4u64,
            ))
            &&& (scan.max_size_length is None ==> header.max_size_length
                == OptionalFieldModel::Default(8u64))
        },
{
}

/// The views of the fields that were found so far.
pub open spec fn found<T: View>(field: Option<Field<T>>) -> Option<FieldModel<T::V>> {
    match field {
        Some(f) => Some(f@),
        None => None,
    }
}

/// Decodes `raw` as an integer field with the default `default`.
fn parse_integer(reader: &mut MatroskaReader, raw: &ParsedElement, default: u64) -> (r: Result<
    Field<u64>,
    MatroskaParseError,
>)
    ensures
        final(reader).bytes() == old(reader).bytes(),
        final(reader).notices() == old(reader).notices(),
        outcome(r) == integer_field(old(reader).bytes(), raw@, default),
{
    if raw.data.length == 0 {
        Ok(Field { raw: raw.clone(), value: default })
    } else {
        Field::parse_u64(reader, raw)
    }
}

/// Records the notices `notices` with `reader`, in order.
fn record(reader: &mut MatroskaReader, notices: &Vec<Diagnostic>)
    ensures
        final(reader).bytes() == old(reader).bytes(),
        final(reader).pos() == old(reader).pos(),
        final(reader).notices() == old(reader).notices() + notices@,
{
    let mut i: usize = 0;
    assert(old(reader).notices() + notices@.subrange(0, 0) =~= old(reader).notices());
    while i < notices.len()
        invariant
            reader.bytes() == old(reader).bytes(),
            reader.pos() == old(reader).pos(),
            i <= notices@.len(),
            reader.notices() == old(reader).notices() + notices@.subrange(0, i as int),
        decreases notices@.len() - i,
    {
        reader.warn(notices[i]);
        assert((old(reader).notices() + notices@.subrange(0, i as int)).push(notices@[i as int])
            =~= old(reader).notices() + notices@.subrange(0, i + 1));
        i = i + 1;
    }
    assert(notices@.subrange(0, notices@.len() as int) =~= notices@);
}

impl MatroskaElement for EbmlHeader {
    const ID: u64 = EBML_HEADER_ID;

    /// Decodes the EBML header from `raw`.
    ///
    /// The result is what [`ebml_header_of`] describes for the bytes of the
    /// reader, and its notices are recorded with the reader.
    fn parse(reader: &mut MatroskaReader, raw: &ParsedElement) -> (r: Result<
        Self,
        MatroskaParseError,
    >)
        ensures
            match ebml_header_of(old(reader).bytes(), raw@) {
                Ok((header, notices)) => {
                    &&& r matches Ok(h)
                    &&& h@ == header
                    &&& final(reader).notices() == old(reader).notices() + notices
                },
                Err(e) => r matches Err(found) && found@ == e,
            },
    {
        let saved: u64 = reader.position();
        let ghost bytes = reader.bytes();
        let mut doctype: Option<Field<String>> = None;
        let mut doctype_version: Option<Field<u64>> = None;
        let mut doctype_read_version: Option<Field<u64>> = None;
        let mut max_id_length: Option<Field<u64>> = None;
        let mut max_size_length: Option<Field<u64>> = None;
        let mut unknown: Vec<Diagnostic> = Vec::new();
        let ghost kids = children_of(raw@);

        match &raw.children {
            None => {},
            Some(children) => {
                proof {
                    lemma_trees_of(children@);
                }
                let mut i: usize = 0;
                while i < children.len()
                    invariant
                        reader.bytes() == bytes,
                        bytes == old(reader).bytes(),
                        reader.notices() == old(reader).notices(),
                        i <= children@.len(),
                        saved == old(reader).pos(),
                        kids == children_of(raw@),
                        kids.len() == children@.len(),
                        forall|k: int| 0 <= k < children@.len() ==> #[trigger] kids[k] == children@[k]@,
                        scan_from(bytes, kids, 0, empty_scan()) == scan_from(
                            bytes,
                            kids,
                            i as nat,
                            HeaderScan {
                                doctype: found(doctype),
                                doctype_version: found(doctype_version),
                                doctype_read_version: found(doctype_read_version),
                                max_id_length: found(max_id_length),
                                max_size_length: found(max_size_length),
                                unknown: unknown@,
                            },
                        ),
                    decreases children@.len() - i,
                {
                    let child: &ParsedElement = &children[i];
                    let ghost scan = HeaderScan {
                        doctype: found(doctype),
                        doctype_version: found(doctype_version),
                        doctype_read_version: found(doctype_read_version),
                        max_id_length: found(max_id_length),
                        max_size_length: found(max_size_length),
                        unknown: unknown@,
                    };
                    assert(kids[i as int] == child@);
                    if child.id == EBML_HEADER_DOCTYPE_ID {
                        match Field::parse_string(reader, child) {
                            Ok(field) => {
                                doctype = Some(field);
                            },
                            Err(e) => {
                                reader.seek(saved);
                                return Err(e);
                            },
                        }
                    } else if child.id == EBML_HEADER_DOCTYPE_VERSION_ID {
                        match parse_integer(reader, child, 1) {
                            Ok(field) => {
                                doctype_version = Some(field);
                            },
                            Err(e) => {
                                reader.seek(saved);
                                return Err(e);
                            },
                        }
                    } else if child.id == EBML_HEADER_DOCTYPE_READ_VERSION_ID {
                        match parse_integer(reader, child, 1) {
                            Ok(field) => {
                                doctype_read_version = Some(field);
                            },
                            Err(e) => {
                                reader.seek(saved);
                                return Err(e);
                            },
                        }
                    } else if child.id == EBML_HEADER_MAX_ID_LENGTH_ID {
                        match parse_integer(reader, child, 4) {
                            Ok(field) => {
                                max_id_length = Some(field);
                            },
                            Err(e) => {
                                reader.seek(saved);
                                return Err(e);
                            },
                        }
                    } else if child.id == EBML_HEADER_MAX_SIZE_LENGTH_ID {
                        match parse_integer(reader, child, 8) {
                            Ok(field) => {
                                max_size_length = Some(field);
                            },
                            Err(e) => {
                                reader.seek(saved);
                                return Err(e);
                            },
                        }
                    } else {
                        unknown.push(
                            Diagnostic::UnknownChild { parent: EBML_HEADER_ID, id: child.id },
                        );
                    }
                    assert(with_child(bytes, scan, child@) == Ok::<HeaderScan, DocumentFault>(
                        HeaderScan {
                            doctype: found(doctype),
                            doctype_version: found(doctype_version),
                            doctype_read_version: found(doctype_read_version),
                            max_id_length: found(max_id_length),
                            max_size_length: found(max_size_length),
                            unknown: unknown@,
                        },
                    ));
                    i = i + 1;
                }
            },
        }
        reader.seek(saved);
        let ghost scan = HeaderScan {
            doctype: found(doctype),
            doctype_version: found(doctype_version),
            doctype_read_version: found(doctype_read_version),
            max_id_length: found(max_id_length),
            max_size_length: found(max_size_length),
            unknown: unknown@,
        };
        assert(scan_from(bytes, kids, 0, empty_scan()) == Ok::<HeaderScan, DocumentFault>(scan));

        let doctype: Field<String> = match doctype {
            Some(field) => field,
            None => {
                return Err(MatroskaParseError::InvalidEbmlHeader("missing docType"));
            },
        };
        let doctype_version = OptionalField::new_or_default(doctype_version, 1);
        let doctype_read_version = OptionalField::new_or_default(doctype_read_version, 1);
        let max_id_length = OptionalField::new_or_default(max_id_length, 4);
        let max_size_length = OptionalField::new_or_default(max_size_length, 8);

        let matroska: String = String::from_str("matroska");
        if doctype.value != matroska {
            return Err(
                MatroskaParseError::UnexpectedText {
                    field: "docType",
                    expected: "matroska",
                    found: doctype.value,
                },
            );
        }
        if max_id_length.value() != 4 {
            return Err(
                MatroskaParseError::UnexpectedValue {
                    field: "EBMLMaxIDLength",
                    expected: 4,
                    found: max_id_length.value(),
                },
            );
        }
        if max_size_length.value() != 8 {
            return Err(
                MatroskaParseError::UnexpectedValue {
                    field: "EBMLMaxSizeLength",
                    expected: 8,
                    found: max_size_length.value(),
                },
            );
        }
        record(reader, &unknown);
        Ok(
            EbmlHeader {
                raw: raw.clone(),
                doctype,
                doctype_version,
                doctype_read_version,
                max_id_length,
                max_size_length,
            },
        )
    }
}

/// The segment information. Nothing of it is decoded yet but its place.
#[derive(Debug)]
pub struct Info {
    pub raw: ParsedElement,
}

/// The mathematical value of an [`Info`].
pub struct InfoModel {
    pub raw: ElementTree,
}

impl View for Info {
    type V = InfoModel;

    open spec fn view(&self) -> InfoModel {
        InfoModel { raw: self.raw@ }
    }
}

impl MatroskaElement for Info {
    const ID: u64 = INFO_ID;

    /// Decodes the segment information from `raw`: it keeps the element.
    fn parse(reader: &mut MatroskaReader, raw: &ParsedElement) -> (r: Result<
        Self,
        MatroskaParseError,
    >)
        ensures
            r matches Ok(info) && info@ == (InfoModel { raw: raw@ }),
            final(reader).notices() == old(reader).notices(),
    {
        Ok(Info { raw: raw.clone() })
    }
}

/// The segment: the section that holds what a document is about.
#[derive(Debug)]
pub struct Segment {
    pub raw: ParsedElement,
    pub info: Info,
}

/// The mathematical value of a [`Segment`].
pub struct SegmentModel {
    pub raw: ElementTree,
    pub info: InfoModel,
}

impl View for Segment {
    type V = SegmentModel;

    open spec fn view(&self) -> SegmentModel {
        SegmentModel { raw: self.raw@, info: self.info@ }
    }
}

/// What was found of a segment while its children are scanned, with the
/// notices of the children that were stepped over.
pub struct SegmentScan {
    pub info: Option<InfoModel>,
    pub unknown: Seq<Diagnostic>,
}

/// `scan` after the children from the index `from` on were read, in order.
///
/// A later segment information takes the place of an earlier one. A child
/// with an identifier that the segment does not know leaves a notice.
pub open spec fn segment_scan_from(children: Seq<ElementTree>, from: nat, scan: SegmentScan)
    -> SegmentScan
    decreases children.len() - from,
{
    if from >= children.len() {
        scan
    } else {
        let child = children[from as int];
        segment_scan_from(
            children,
            from + 1,
            if child.id == INFO_ID {
                SegmentScan { info: Some(InfoModel { raw: child }), ..scan }
            } else {
                SegmentScan {
                    unknown: scan.unknown.push(
                        Diagnostic::UnknownChild { parent: SEGMENT_ID, id: child.id },
                    ),
                    ..scan
                }
            },
        )
    }
}

/// The segment that `raw` holds, with the notices of the children that were
/// stepped over. The segment information has to be there.
pub open spec fn segment_of(raw: ElementTree) -> Result<
    (SegmentModel, Seq<Diagnostic>),
    DocumentFault,
> {
    let scan = segment_scan_from(
        children_of(raw),
        0,
        SegmentScan { info: None, unknown: Seq::empty() },
    );
    match scan.info {
        None => Err(DocumentFault::MissingElement("Info"@)),
        Some(info) => Ok((SegmentModel { raw, info }, scan.unknown)),
    }
}

/// The view of the segment information that was found so far.
pub open spec fn found_info(info: Option<Info>) -> Option<InfoModel> {
    match info {
        Some(i) => Some(i@),
        None => None,
    }
}

impl MatroskaElement for Segment {
    const ID: u64 = SEGMENT_ID;

    /// Decodes the segment from `raw`.
    ///
    /// The result is what [`segment_of`] describes, and its notices are
    /// recorded with the reader.
    fn parse(reader: &mut MatroskaReader, raw: &ParsedElement) -> (r: Result<
        Self,
        MatroskaParseError,
    >)
        ensures
            match segment_of(raw@) {
                Ok((segment, notices)) => {
                    &&& r matches Ok(s)
                    &&& s@ == segment
                    &&& final(reader).notices() == old(reader).notices() + notices
                },
                Err(e) => r matches Err(found) && found@ == e,
            },
    {
        let mut info: Option<Info> = None;
        let mut unknown: Vec<Diagnostic> = Vec::new();
        let ghost kids = children_of(raw@);
        match &raw.children {
            None => {},
            Some(children) => {
                proof {
                    lemma_trees_of(children@);
                }
                let mut i: usize = 0;
                while i < children.len()
                    invariant
                        reader.bytes() == old(reader).bytes(),
                        reader.pos() == old(reader).pos(),
                        reader.notices() == old(reader).notices(),
                        i <= children@.len(),
                        kids == children_of(raw@),
                        kids.len() == children@.len(),
                        forall|k: int| 0 <= k < children@.len() ==> #[trigger] kids[k] == children@[k]@,
                        segment_scan_from(
                            kids,
                            0,
                            SegmentScan { info: None, unknown: Seq::empty() },
                        ) == segment_scan_from(
                            kids,
                            i as nat,
                            SegmentScan { info: found_info(info), unknown: unknown@ },
                        ),
                    decreases children@.len() - i,
                {
                    let child: &ParsedElement = &children[i];
                    assert(kids[i as int] == child@);
                    if child.id == INFO_ID {
                        match Info::parse(reader, child) {
                            Ok(found) => {
                                info = Some(found);
                            },
                            Err(e) => {
                                return Err(e);
                            },
                        }
                    } else {
                        unknown.push(Diagnostic::UnknownChild { parent: SEGMENT_ID, id: child.id });
                    }
                    i = i + 1;
                }
            },
        }
        let info: Info = match info {
            Some(info) => info,
            None => {
                return Err(MatroskaParseError::MissingElement("Info"));
            },
        };
        record(reader, &unknown);
        Ok(Segment { raw: raw.clone(), info })
    }
}

/// A Matroska document: its EBML header and its segment.
#[derive(Debug)]
pub struct MatroskaDocument {
    pub ebml_header: EbmlHeader,
    pub segment: Segment,
}

/// The mathematical value of a [`MatroskaDocument`].
pub struct DocumentModel {
    pub ebml_header: EbmlHeaderModel,
    pub segment: SegmentModel,
}

impl View for MatroskaDocument {
    type V = DocumentModel;

    open spec fn view(&self) -> DocumentModel {
        DocumentModel { ebml_header: self.ebml_header@, segment: self.segment@ }
    }
}

/// The document that the input holds from `pos` on, with the notices of what
/// was stepped over.
///
/// The input has to be a sequence of elements as the tree reader reads them
/// with the schema of Matroska. The first has to be the EBML header and the
/// second the segment; what follows is not looked at. Then the header is
/// decoded, and then the segment.
pub open spec fn document_of(bytes: Seq<u8>, pos: int) -> Result<
    (DocumentModel, Seq<Diagnostic>),
    DocumentFault,
> {
    match elements_at::<MatroskaSchema>(bytes, pos, bytes.len() as int) {
        Err(e) => Err(DocumentFault::EbmlError(e)),
        Ok(root) => if root.len() == 0 {
            Err(DocumentFault::MissingEbmlHeader)
        } else if root.len() < 2 {
            Err(DocumentFault::InvalidEbmlHeader("missing Segment element"@))
        } else if root[0].id != EBML_HEADER_ID {
            Err(DocumentFault::MissingEbmlHeader)
        } else if root[1].id != SEGMENT_ID {
            Err(DocumentFault::MissingElement("Segment"@))
        } else {
            match ebml_header_of(bytes, root[0]) {
                Err(e) => Err(e),
                Ok((ebml_header, header_notices)) => match segment_of(root[1]) {
                    Err(e) => Err(e),
                    Ok((segment, segment_notices)) => Ok(
                        (DocumentModel { ebml_header, segment }, header_notices + segment_notices),
                    ),
                },
            }
        },
    }
}

/// `r` is the result of decoding the input `bytes` from `pos` on.
pub open spec fn decoded(r: Result<MatroskaDocument, MatroskaParseError>, bytes: Seq<u8>, pos: int)
    -> bool {
    outcome(r) == match document_of(bytes, pos) {
        Ok((document, _)) => Ok::<DocumentModel, DocumentFault>(document),
        Err(e) => Err(e),
    }
}

impl MatroskaDocument {
    /// Decodes the document that `reader` holds from its read position on,
    /// and returns with it the notices of what was stepped over.
    ///
    /// The result is what [`document_of`] describes; where there is no
    /// document there are no notices.
    pub fn parse_with_diagnostics(reader: ByteSource) -> (r: (
        Result<Self, MatroskaParseError>,
        Vec<Diagnostic>,
    ))
        ensures
            decoded(r.0, reader.bytes(), reader.pos() as int),
            r.1@ == match document_of(reader.bytes(), reader.pos() as int) {
                Ok((_, notices)) => notices,
                Err(_) => Seq::<Diagnostic>::empty(),
            },
    {
        let mut matroska_reader = MatroskaReader::new(reader);
        let none: Vec<Diagnostic> = Vec::new();
        let root: Vec<ParsedElement> = match read_root::<MatroskaSchema>(
            &mut matroska_reader.ebml_reader,
        ) {
            Ok(root) => root,
            Err(e) => {
                return (Err(MatroskaParseError::EbmlError(e)), none);
            },
        };
        proof {
            lemma_trees_of(root@);
        }
        if root.len() == 0 {
            return (Err(MatroskaParseError::MissingEbmlHeader), none);
        }
        if root.len() < 2 {
            return (Err(MatroskaParseError::InvalidEbmlHeader("missing Segment element")), none);
        }
        if root[0].id != EBML_HEADER_ID {
            return (Err(MatroskaParseError::MissingEbmlHeader), none);
        }
        if root[1].id != SEGMENT_ID {
            return (Err(MatroskaParseError::MissingElement("Segment")), none);
        }
        let ebml_header: EbmlHeader = match EbmlHeader::parse(&mut matroska_reader, &root[0]) {
            Ok(header) => header,
            Err(e) => {
                return (Err(e), none);
            },
        };
        let segment: Segment = match Segment::parse(&mut matroska_reader, &root[1]) {
            Ok(segment) => segment,
            Err(e) => {
                return (Err(e), none);
            },
        };
        let notices: Vec<Diagnostic> = matroska_reader.diagnostics;
        (Ok(MatroskaDocument { ebml_header, segment }), notices)
    }

    /// Decodes the document that `reader` holds from its read position on.
    ///
    /// The result is what [`document_of`] describes: the document, or the
    /// first error on the way to it.
    pub fn parse_from(reader: ByteSource) -> (r: Result<Self, MatroskaParseError>)
        ensures
            decoded(r, reader.bytes(), reader.pos() as int),
    {
        Self::parse_with_diagnostics(reader).0
    }
}

/// Decoding is a function of the input: two results of decoding the same
/// bytes from the same position are the same document, field for field, or
/// the same error.
pub proof fn lemma_decode_is_a_function(
    first: Result<MatroskaDocument, MatroskaParseError>,
    second: Result<MatroskaDocument, MatroskaParseError>,
    bytes: Seq<u8>,
    pos: int,
)
    requires
        decoded(first, bytes, pos),
        decoded(second, bytes, pos),
    ensures
        outcome(first) == outcome(second),
{
}

} // verus!
