use mkvedit::ebml::diagnostic::Diagnostic;
use mkvedit::ebml::error::{EbmlError, IoErrorKind};
use mkvedit::ebml::primitives::ValueError;
use mkvedit::ebml::reader::{ByteRange, EbmlSchema, ParsedElement};
use mkvedit::ebml::source::ByteSource;
use mkvedit::ebml::writer::Element;
use mkvedit::matroska::print_tree;
use mkvedit::matroska::printer::{element_label, field_label, span};
use mkvedit::matroska::{
    print_matroska_tree, EbmlHeader, Field, Info, MatroskaDocument, MatroskaElement,
    MatroskaParseError, MatroskaReader, MatroskaSchema, OptionalField, ProbeSchema, Segment,
    EBML_HEADER_DOCTYPE_ID, EBML_HEADER_DOCTYPE_READ_VERSION_ID, EBML_HEADER_DOCTYPE_VERSION_ID,
    EBML_HEADER_ID, EBML_HEADER_MAX_ID_LENGTH_ID, EBML_HEADER_MAX_SIZE_LENGTH_ID, INFO_ID,
    SEGMENT_ID,
};

fn document(header: Vec<Element>, segment: Vec<Element>) -> Vec<u8> {
    Element::Root {
        children: vec![
            Element::Master { id: EBML_HEADER_ID, children: header },
            Element::Master { id: SEGMENT_ID, children: segment },
        ],
    }
    .to_bytes()
    .unwrap()
}

fn doctype(text: &[u8]) -> Element {
    Element::Raw { id: EBML_HEADER_DOCTYPE_ID, data: text.to_vec() }
}

fn info() -> Element {
    Element::Master { id: INFO_ID, children: vec![] }
}

fn parse(bytes: Vec<u8>) -> Result<MatroskaDocument, MatroskaParseError> {
    MatroskaDocument::parse_from(ByteSource::new(bytes))
}

#[test]
fn test_print_simple_tree() {
    let ebml_tree = Element::Root {
        children: vec![
            Element::Master {
                id: EBML_HEADER_ID,
                children: vec![
                    Element::Raw {
                        id: EBML_HEADER_DOCTYPE_ID,
                        data: b"matroska".to_vec(),
                    },
                    Element::Raw {
                        id: EBML_HEADER_MAX_ID_LENGTH_ID,
                        data: vec![0x04],
                    },
                ],
            },
            Element::Master {
                id: SEGMENT_ID,
                children: vec![Element::Master {
                    id: INFO_ID,
                    children: vec![],
                }],
            },
        ],
    };

    let bytes = ebml_tree.to_bytes().unwrap();
    let cursor = ByteSource::new(bytes);
    let matroska_doc = MatroskaDocument::parse_from(cursor).unwrap();

    let tree_string = print_matroska_tree(&matroska_doc, false).unwrap();

    assert_eq!(
        "MatroskaDocument
├── EBML Header
│   ├── docType: \"matroska\"
│   └── maxIDLength: 4
└── Segment
    └── Info
",
        tree_string
    );
}

#[test]
fn print_tree_with_byte_ranges() {
    let bytes = document(
        vec![doctype(b"matroska"), Element::Raw { id: EBML_HEADER_MAX_ID_LENGTH_ID, data: vec![4] }],
        vec![info()],
    );
    let doc = parse(bytes).unwrap();
    let text = print_matroska_tree(&doc, true).unwrap();
    assert_eq!(
        "MatroskaDocument
├── EBML Header [bytes 0..20]
│   ├── docType: \"matroska\" [bytes 5..16]
│   └── maxIDLength: 4 [bytes 16..20]
└── Segment [bytes 20..30]
    └── Info [bytes 25..30]
",
        text
    );
}

#[test]
fn verbose_tree_marks_the_defaults() {
    let bytes = document(
        vec![doctype(b"matroska"), Element::Raw { id: EBML_HEADER_MAX_ID_LENGTH_ID, data: vec![4] }],
        vec![info()],
    );
    let doc = parse(bytes).unwrap();
    assert_eq!(
        "MatroskaDocument
├── EBML Header
│   ├── docType: \"matroska\"
│   ├── docTypeVersion: 1 (default)
│   ├── docTypeReadVersion: 1 (default)
│   ├── maxIDLength: 4
│   └── maxSizeLength: 8 (default)
",
        print_tree::print_matroska_tree(&doc, false)
    );
    assert_eq!(
        "MatroskaDocument
├── EBML Header [bytes 0..20]
│   ├── docType: \"matroska\" [bytes 5..16]
│   ├── docTypeVersion: 1 (default)
│   ├── docTypeReadVersion: 1 (default)
│   ├── maxIDLength: 4 [bytes 16..20]
│   └── maxSizeLength: 8 (default)
",
        print_tree::print_matroska_tree(&doc, true)
    );
}

#[test]
fn verbose_printer_pieces() {
    let mut out = String::new();
    print_tree::indent(&mut out, 0);
    assert_eq!(out, "");
    print_tree::indent(&mut out, 1);
    assert_eq!(out, "");
    print_tree::indent(&mut out, 3);
    assert_eq!(out, "│   │   ");
    let mut out = String::new();
    print_tree::branch(&mut out, true);
    print_tree::branch(&mut out, false);
    assert_eq!(out, "└── ├── ");
    let raw = ParsedElement {
        id: 0x4282,
        header: ByteRange { start: 5, length: 3 },
        data: ByteRange { start: 8, length: 8 },
        children: None,
    };
    let mut out = String::new();
    print_tree::print_field(&mut out, 2, true, "docType", "\"x\"", Some(&raw), true);
    assert_eq!(out, "│   └── docType: \"x\" [bytes 5..16]\n");
    let mut out = String::new();
    print_tree::print_field(&mut out, 1, false, "n", "7", None, true);
    assert_eq!(out, "├── n: 7 (default)\n");
}

#[test]
fn labels() {
    let raw = ParsedElement {
        id: 0x4282,
        header: ByteRange { start: 5, length: 3 },
        data: ByteRange { start: 8, length: 8 },
        children: None,
    };
    assert_eq!(span(&raw), " [bytes 5..16]");
    assert_eq!(element_label("Info", &raw, false), "Info");
    assert_eq!(element_label("Info", &raw, true), "Info [bytes 5..16]");
    assert_eq!(field_label("docType", "\"x\"", Some(&raw), false).unwrap(), "docType: \"x\"");
    assert_eq!(
        field_label("docType", "\"x\"", Some(&raw), true).unwrap(),
        "docType: \"x\" [bytes 5..16]"
    );
    assert!(field_label("docType", "\"x\"", None, true).is_none());
    let far = ParsedElement {
        id: 0xEC,
        header: ByteRange { start: u64::MAX, length: 2 },
        data: ByteRange { start: u64::MAX, length: u64::MAX },
        children: None,
    };
    assert_eq!(span(&far), " [bytes 18446744073709551615..36893488147419103230]");
}

#[test]
fn doctype_alone_takes_the_defaults() {
    let bytes = document(vec![doctype(b"matroska")], vec![info()]);
    let doc = parse(bytes).unwrap();
    let header = &doc.ebml_header;
    assert_eq!(header.doctype.value, "matroska");
    assert_eq!(header.doctype.raw.id, EBML_HEADER_DOCTYPE_ID);
    assert_eq!(header.doctype.raw.data, ByteRange { start: 8, length: 8 });
    assert!(matches!(header.doctype_version, OptionalField::Default(1)));
    assert!(matches!(header.doctype_read_version, OptionalField::Default(1)));
    assert!(matches!(header.max_id_length, OptionalField::Default(4)));
    assert!(matches!(header.max_size_length, OptionalField::Default(8)));
    assert_eq!(header.doctype_version.value(), 1);
    assert_eq!(header.max_size_length.value(), 8);
    assert_eq!(header.raw.id, EBML_HEADER_ID);
    assert_eq!(doc.segment.raw.id, SEGMENT_ID);
    assert_eq!(doc.segment.info.raw.id, INFO_ID);
}

#[test]
fn other_doctype_is_refused() {
    let bytes = document(vec![doctype(b"webm")], vec![info()]);
    match parse(bytes) {
        Err(MatroskaParseError::UnexpectedText { field, expected, found }) => {
            assert_eq!(field, "docType");
            assert_eq!(expected, "matroska");
            assert_eq!(found, "webm");
        }
        other => panic!("unexpected result {:?}", other),
    }
    let bytes = document(vec![doctype(b"")], vec![info()]);
    assert!(matches!(parse(bytes), Err(MatroskaParseError::UnexpectedText { .. })));
}

#[test]
fn present_fields_keep_their_elements() {
    let bytes = document(
        vec![
            Element::Raw { id: EBML_HEADER_DOCTYPE_VERSION_ID, data: vec![0x00, 0x04] },
            Element::Raw { id: EBML_HEADER_DOCTYPE_READ_VERSION_ID, data: vec![2] },
            doctype(b"matroska"),
            Element::Raw { id: EBML_HEADER_MAX_SIZE_LENGTH_ID, data: vec![8] },
            Element::Raw { id: EBML_HEADER_MAX_ID_LENGTH_ID, data: vec![] },
        ],
        vec![info()],
    );
    let doc = parse(bytes).unwrap();
    let header = &doc.ebml_header;
    match &header.doctype_version {
        OptionalField::Present(field) => {
            assert_eq!(field.value, 4);
            assert_eq!(field.raw.data, ByteRange { start: 8, length: 2 });
        }
        OptionalField::Default(_) => panic!("docTypeVersion was there"),
    }
    assert_eq!(header.doctype_read_version.value(), 2);
    assert!(matches!(header.max_size_length, OptionalField::Present(_)));
    // an integer without payload is there and holds the default
    match &header.max_id_length {
        OptionalField::Present(field) => {
            assert_eq!(field.value, 4);
            assert_eq!(field.raw.data.length, 0);
        }
        OptionalField::Default(_) => panic!("maxIDLength was there"),
    }
}

#[test]
fn later_field_takes_the_place_of_an_earlier_one() {
    let bytes = document(vec![doctype(b"webm"), doctype(b"matroska")], vec![info()]);
    let doc = parse(bytes).unwrap();
    assert_eq!(doc.ebml_header.doctype.raw.header.start, 12);
}

#[test]
fn fixed_lengths_are_held() {
    let bytes = document(
        vec![doctype(b"matroska"), Element::Raw { id: EBML_HEADER_MAX_ID_LENGTH_ID, data: vec![3] }],
        vec![info()],
    );
    assert!(matches!(
        parse(bytes),
        Err(MatroskaParseError::UnexpectedValue { field: "EBMLMaxIDLength", expected: 4, found: 3 })
    ));
    let bytes = document(
        vec![doctype(b"matroska"), Element::Raw { id: EBML_HEADER_MAX_SIZE_LENGTH_ID, data: vec![4] }],
        vec![info()],
    );
    assert!(matches!(
        parse(bytes),
        Err(MatroskaParseError::UnexpectedValue {
            field: "EBMLMaxSizeLength",
            expected: 8,
            found: 4
        })
    ));
}

#[test]
fn values_that_cannot_be_decoded() {
    let bytes = document(
        vec![doctype(b"matroska"), Element::Raw { id: EBML_HEADER_DOCTYPE_VERSION_ID, data: vec![0; 9] }],
        vec![info()],
    );
    assert!(matches!(
        parse(bytes),
        Err(MatroskaParseError::ValueError(ValueError::IntegerTooLong(9)))
    ));
    let bytes = document(vec![doctype(b"matro\nska")], vec![info()]);
    assert!(matches!(parse(bytes), Err(MatroskaParseError::ValueError(ValueError::NotPrintable))));
    let bytes = document(vec![doctype(&[0x6D, 0xC3, 0xA4])], vec![info()]);
    assert!(matches!(parse(bytes), Err(MatroskaParseError::ValueError(ValueError::NotPrintable))));
}

#[test]
fn missing_parts_of_a_document() {
    assert!(matches!(parse(vec![]), Err(MatroskaParseError::MissingEbmlHeader)));
    let only_header = Element::Master { id: EBML_HEADER_ID, children: vec![doctype(b"matroska")] }
        .to_bytes()
        .unwrap();
    assert!(matches!(
        parse(only_header),
        Err(MatroskaParseError::InvalidEbmlHeader("missing Segment element"))
    ));
    let wrong_first = Element::Root {
        children: vec![
            Element::Master { id: SEGMENT_ID, children: vec![info()] },
            Element::Master { id: EBML_HEADER_ID, children: vec![doctype(b"matroska")] },
        ],
    }
    .to_bytes()
    .unwrap();
    assert!(matches!(parse(wrong_first), Err(MatroskaParseError::MissingEbmlHeader)));
    let wrong_second = Element::Root {
        children: vec![
            Element::Master { id: EBML_HEADER_ID, children: vec![doctype(b"matroska")] },
            Element::Raw { id: 0xEC, data: vec![] },
        ],
    }
    .to_bytes()
    .unwrap();
    assert!(matches!(parse(wrong_second), Err(MatroskaParseError::MissingElement("Segment"))));
    let no_doctype = document(vec![], vec![info()]);
    assert!(matches!(
        parse(no_doctype),
        Err(MatroskaParseError::InvalidEbmlHeader("missing docType"))
    ));
    let no_info = document(vec![doctype(b"matroska")], vec![]);
    assert!(matches!(parse(no_info), Err(MatroskaParseError::MissingElement("Info"))));
}

#[test]
fn truncated_document_is_exhaustion() {
    let mut bytes = document(vec![doctype(b"matroska")], vec![info()]);
    bytes.pop();
    assert!(matches!(
        parse(bytes),
        Err(MatroskaParseError::EbmlError(EbmlError::UnexpectedEof))
    ));
    // a header that declares 15 bytes where 11 are there
    let bytes = vec![
        0x1A, 0x45, 0xDF, 0xA3, 0x8F, 0x42, 0x82, 0x88, 0x6D, 0x61, 0x74, 0x72, 0x6F, 0x73, 0x6B,
        0x61,
    ];
    assert!(matches!(
        parse(bytes),
        Err(MatroskaParseError::EbmlError(EbmlError::UnexpectedEof))
    ));
}

#[test]
fn unknown_children_are_skipped_with_a_notice() {
    let bytes = document(
        vec![
            Element::Raw { id: 0xEC, data: vec![0x42, 0x82, 0x81, 0x41] },
            doctype(b"matroska"),
            Element::Raw { id: 0x4286, data: vec![1] },
        ],
        vec![Element::Raw { id: 0xBF, data: vec![1, 2, 3, 4] }, info()],
    );
    let (result, notices) = MatroskaDocument::parse_with_diagnostics(ByteSource::new(bytes.clone()));
    let doc = result.unwrap();
    assert_eq!(doc.ebml_header.doctype.value, "matroska");
    assert_eq!(
        notices,
        vec![
            Diagnostic::UnknownChild { parent: EBML_HEADER_ID, id: 0xEC },
            Diagnostic::UnknownChild { parent: EBML_HEADER_ID, id: 0x4286 },
            Diagnostic::UnknownChild { parent: SEGMENT_ID, id: 0xBF },
        ]
    );
    let (result, notices) = MatroskaDocument::parse_with_diagnostics(ByteSource::new(vec![0x00]));
    assert!(result.is_err());
    assert!(notices.is_empty());
}

#[test]
fn decoding_twice_gives_the_same_document() {
    let bytes = document(
        vec![
            doctype(b"matroska"),
            Element::Raw { id: EBML_HEADER_DOCTYPE_VERSION_ID, data: vec![4] },
            Element::Raw { id: 0xEC, data: vec![9; 5] },
        ],
        vec![info()],
    );
    let first = parse(bytes.clone()).unwrap();
    let second = parse(bytes).unwrap();
    assert_eq!(format!("{:?}", first), format!("{:?}", second));
    assert_eq!(
        print_tree::print_matroska_tree(&first, true),
        print_tree::print_matroska_tree(&second, true)
    );
}

#[test]
fn schemas() {
    assert!(MatroskaSchema::is_master(EBML_HEADER_ID));
    assert!(MatroskaSchema::is_master(SEGMENT_ID));
    assert!(!MatroskaSchema::is_master(INFO_ID));
    assert!(!MatroskaSchema::is_master(EBML_HEADER_DOCTYPE_ID));
    assert!(ProbeSchema::is_master(EBML_HEADER_ID));
    assert!(!ProbeSchema::is_master(SEGMENT_ID));
}

#[test]
fn fields_are_read_through_the_reader() {
    let bytes = vec![0x42, 0x82, 0x82, 0x68, 0x69, 0x42, 0x87, 0x82, 0x01, 0x00];
    let mut reader = MatroskaReader::new(ByteSource::new(bytes));
    let text = ParsedElement {
        id: 0x4282,
        header: ByteRange { start: 0, length: 3 },
        data: ByteRange { start: 3, length: 2 },
        children: None,
    };
    let number = ParsedElement {
        id: 0x4287,
        header: ByteRange { start: 5, length: 3 },
        data: ByteRange { start: 8, length: 2 },
        children: None,
    };
    let field = Field::parse_string(&mut reader, &text).unwrap();
    assert_eq!(field.value, "hi");
    assert_eq!(field.raw.data, text.data);
    assert_eq!(reader.position(), 5);
    let field = Field::parse_u64(&mut reader, &number).unwrap();
    assert_eq!(field.value, 0x0100);
    assert_eq!(reader.position(), 10);
    assert!(matches!(
        Field::parse_u64(&mut reader, &text),
        Ok(Field { value: 0x6869, .. })
    ));
    let beyond = ParsedElement {
        id: 0x4287,
        header: ByteRange { start: 5, length: 3 },
        data: ByteRange { start: 8, length: 3 },
        children: None,
    };
    assert!(matches!(
        Field::parse_u64(&mut reader, &beyond),
        Err(MatroskaParseError::EbmlError(EbmlError::Io(IoErrorKind::UnexpectedEof)))
    ));
    assert_eq!(reader.position(), 8);
    let empty = ParsedElement {
        id: 0x4287,
        header: ByteRange { start: 5, length: 3 },
        data: ByteRange { start: 8, length: 0 },
        children: None,
    };
    assert!(matches!(
        Field::parse_u64(&mut reader, &empty),
        Err(MatroskaParseError::ValueError(ValueError::EmptyInteger))
    ));
    assert_eq!(reader.read_range(&ByteRange { start: 3, length: 2 }).unwrap(), vec![0x68, 0x69]);
    let doubled = Field::parse(&mut reader, &text, |payload: Vec<u8>| Ok(payload.len() * 2)).unwrap();
    assert_eq!(doubled.value, 4);
}

#[test]
fn sections_are_decoded_from_their_elements() {
    let bytes = document(vec![doctype(b"matroska")], vec![Element::Raw { id: 0xBF, data: vec![] }, info()]);
    let source = ByteSource::new(bytes.clone());
    let mut tree_reader = mkvedit::ebml::reader::EbmlReader::new(source);
    let root = mkvedit::ebml::reader::read_root::<MatroskaSchema>(&mut tree_reader).unwrap();
    let mut reader = MatroskaReader::new(ByteSource::new(bytes));
    reader.seek(3);
    let header = EbmlHeader::parse(&mut reader, &root[0]).unwrap();
    assert_eq!(header.doctype.value, "matroska");
    assert_eq!(reader.position(), 3);
    assert!(reader.diagnostics().is_empty());
    let segment = Segment::parse(&mut reader, &root[1]).unwrap();
    assert_eq!(segment.info.raw.id, INFO_ID);
    assert_eq!(
        reader.diagnostics(),
        &vec![Diagnostic::UnknownChild { parent: SEGMENT_ID, id: 0xBF }]
    );
    let info = Info::parse(&mut reader, &segment.info.raw).unwrap();
    assert_eq!(info.raw.header, segment.info.raw.header);
}

#[test]
fn optional_fields() {
    let absent: OptionalField<u64> = OptionalField::new_default(7);
    assert!(matches!(absent, OptionalField::Default(7)));
    assert_eq!(absent.value(), 7);
    let raw = ParsedElement {
        id: 0x4287,
        header: ByteRange { start: 0, length: 3 },
        data: ByteRange { start: 3, length: 1 },
        children: None,
    };
    let present = OptionalField::new_or_default(Some(Field { raw, value: 9u64 }), 1);
    assert!(matches!(present, OptionalField::Present(_)));
    assert_eq!(present.value(), 9);
    let fallback: OptionalField<u64> = OptionalField::new_or_default(None, 1);
    assert!(matches!(fallback, OptionalField::Default(1)));
}
