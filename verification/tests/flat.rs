use mkvedit::ebml::diagnostic::Diagnostic;
use mkvedit::ebml::ebml_header::parse_ebml_header;
use mkvedit::ebml::element::{NodeMeta, ParsedElement};
use mkvedit::ebml::error::{IoErrorKind, MatroskaValue, ParseError};
use mkvedit::ebml::matroska_reader::{parse_ebml_header_children, MatroskaReader};
use mkvedit::ebml::primitives::{
    parse_string, parse_u64, read_string, read_unsigned_integer, ValueError,
};
use mkvedit::ebml::source::ByteSource;
use mkvedit::ebml::writer::Element;

fn reader(bytes: Vec<u8>) -> MatroskaReader {
    MatroskaReader::new(ByteSource::new(bytes))
}

fn header(children: Vec<Element>) -> Vec<u8> {
    Element::Master { id: 0x1A45_DFA3, children }.to_bytes().unwrap()
}

fn raw(id: u64, data: &[u8]) -> Element {
    Element::Raw { id, data: data.to_vec() }
}

#[test]
fn unsigned_integers() {
    assert_eq!(parse_u64(vec![0x01]), Ok(1));
    assert_eq!(parse_u64(vec![0x01, 0x02]), Ok(0x0102));
    assert_eq!(parse_u64(vec![0xFF; 8]), Ok(u64::MAX));
    assert_eq!(parse_u64(vec![]), Err(ValueError::EmptyInteger));
    assert_eq!(parse_u64(vec![0; 9]), Err(ValueError::IntegerTooLong(9)));
    assert_eq!(parse_u64(vec![0x12, 0x34, 0x56]), Ok(0x123456));

    let mut source = ByteSource::new(vec![0x00, 0x01, 0x02, 0x03]);
    source.seek(1);
    assert_eq!(read_unsigned_integer(&mut source, 2).unwrap(), 0x0102);
    assert_eq!(source.position(), 3);
    assert_eq!(read_unsigned_integer(&mut source, 0).unwrap(), 0);
    assert!(matches!(
        read_unsigned_integer(&mut source, 2),
        Err(ParseError::Io(IoErrorKind::UnexpectedEof))
    ));
    assert_eq!(source.position(), 3);
    assert!(matches!(read_unsigned_integer(&mut source, 9), Err(ParseError::IntegerTooLong(9))));
}

#[test]
fn strings() {
    assert_eq!(parse_string(b"matroska".to_vec()).unwrap(), "matroska");
    assert_eq!(parse_string(vec![]).unwrap(), "");
    assert_eq!(parse_string(b" ~".to_vec()).unwrap(), " ~");
    assert_eq!(parse_string(vec![0x1F]), Err(ValueError::NotPrintable));
    assert_eq!(parse_string(vec![0x7F]), Err(ValueError::NotPrintable));
    assert_eq!(parse_string(vec![0x61, 0x00]), Err(ValueError::NotPrintable));
    assert_eq!(parse_string(vec![0xC3, 0xA4]), Err(ValueError::NotPrintable));

    let mut source = ByteSource::new(b"webm\n".to_vec());
    assert_eq!(read_string(&mut source, 4).unwrap(), "webm");
    assert_eq!(source.position(), 4);
    assert!(matches!(read_string(&mut source, 1), Err(ParseError::InvalidString)));
    assert_eq!(source.position(), 4);
    assert!(matches!(
        read_string(&mut source, 2),
        Err(ParseError::Io(IoErrorKind::UnexpectedEof))
    ));
}

#[test]
fn headers_and_payloads() {
    let mut r = reader(vec![0x42, 0x82, 0x82, 0x68, 0x69, 0xEC, 0x80]);
    let (first, start) = r.read_header().unwrap().unwrap();
    assert_eq!(start, 0);
    assert_eq!(first.id.value, 0x4282);
    assert_eq!(first.data_size.value, 2);
    assert_eq!(first.header_size, 3);
    assert_eq!(r.position(), 3);
    assert!(matches!(r.skip_payload(5), Err(ParseError::UnexpectedEOF)));
    assert_eq!(r.position(), 3);
    r.skip_payload(2).unwrap();
    assert_eq!(r.position(), 5);
    let (second, start) = r.read_header().unwrap().unwrap();
    assert_eq!(start, 5);
    assert_eq!(second.id.value, 0xEC);
    assert!(r.read_header().unwrap().is_none());
    assert_eq!(r.len(), 7);
    r.seek(3);
    assert_eq!(r.read_string(2).unwrap(), "hi");
    r.seek(3);
    assert_eq!(r.read_unsigned_integer(2).unwrap(), 0x6869);
}

#[test]
fn elements_are_listed() {
    let mut bytes = header(vec![raw(0x4282, b"matroska"), raw(0x42F2, &[4])]);
    bytes.extend(raw(0x1853_8067, &[1, 2, 3]).to_bytes().unwrap());
    let mut r = reader(bytes);
    let found = r.parse_elements().unwrap();
    assert_eq!(found.len(), 2);
    assert_eq!(
        found[0].meta,
        NodeMeta { header_start: 0, data_start: 5, id: 0x1A45_DFA3, data_size: 15 }
    );
    match &found[0].parsed {
        ParsedElement::EBMLHeader(children) => {
            assert_eq!(children.len(), 2);
            assert_eq!(
                children[0].meta,
                NodeMeta { header_start: 5, data_start: 8, id: 0x4282, data_size: 8 }
            );
            assert!(matches!(children[0].parsed, ParsedElement::Unkown));
            assert_eq!(
                children[1].meta,
                NodeMeta { header_start: 16, data_start: 19, id: 0x42F2, data_size: 1 }
            );
        }
        ParsedElement::Unkown => panic!("the header was not looked into"),
    }
    assert_eq!(
        found[1].meta,
        NodeMeta { header_start: 20, data_start: 25, id: 0x1853_8067, data_size: 3 }
    );
    assert!(matches!(found[1].parsed, ParsedElement::Unkown));
    assert_eq!(r.position(), 28);

    let mut none = reader(vec![]);
    assert!(none.parse_elements().unwrap().is_empty());
}

#[test]
fn listing_fails_where_the_input_does() {
    let mut cut = reader(vec![0xEC, 0x85, 0x00]);
    assert!(matches!(cut.parse_elements(), Err(ParseError::UnexpectedEOF)));
    assert_eq!(cut.position(), 0);
    let mut half = reader(vec![0xEC, 0x80, 0x42]);
    assert!(matches!(half.parse_elements(), Err(ParseError::UnexpectedEOFElementHeader)));
    assert_eq!(half.position(), 2);
    let mut long_id = reader(vec![0x08, 0, 0, 0, 0, 0x80]);
    assert!(matches!(long_id.parse_elements(), Err(ParseError::InvalidElementIdLength(5))));
    let mut overrun = reader(vec![0x1A, 0x45, 0xDF, 0xA3, 0x83, 0xEC, 0x82, 0x00, 0x00, 0xEC, 0x80]);
    assert!(matches!(overrun.parse_elements(), Err(ParseError::ElementOverrun)));
    assert_eq!(overrun.position(), 5);
}

#[test]
fn header_children_of_a_given_range() {
    let bytes = vec![0xEC, 0x81, 0x07, 0xBF, 0x80, 0xEC, 0x80];
    let mut r = reader(bytes.clone());
    let meta = NodeMeta { header_start: 0, data_start: 0, id: 0x1A45_DFA3, data_size: 5 };
    let children = parse_ebml_header_children(&mut r, &meta).unwrap();
    assert_eq!(children.len(), 2);
    assert_eq!(children[1].meta.header_start, 3);
    assert_eq!(r.position(), 5);
    // at or past the end of the range there is nothing to read
    assert!(parse_ebml_header_children(&mut r, &meta).unwrap().is_empty());
    assert_eq!(r.position(), 5);
    // a range that ends inside an element
    let mut r = reader(bytes.clone());
    let meta = NodeMeta { header_start: 0, data_start: 0, id: 0x1A45_DFA3, data_size: 4 };
    assert!(matches!(parse_ebml_header_children(&mut r, &meta), Err(ParseError::ElementOverrun)));
    assert_eq!(r.position(), 3);
    // a range that reaches past the input
    let mut r = reader(bytes);
    let meta = NodeMeta { header_start: 0, data_start: 0, id: 0x1A45_DFA3, data_size: u64::MAX };
    assert!(matches!(parse_ebml_header_children(&mut r, &meta), Err(ParseError::UnexpectedEOF)));
    assert_eq!(r.position(), 7);
    let mut r = reader(vec![0xEC, 0x80]);
    let meta = NodeMeta { header_start: 0, data_start: u64::MAX, id: 0, data_size: u64::MAX };
    assert!(matches!(parse_ebml_header_children(&mut r, &meta), Err(ParseError::UnexpectedEOF)));
}

#[test]
fn flat_header_is_read() {
    let bytes = header(vec![
        raw(0x4282, b"matroska"),
        raw(0xEC, &[0x42, 0x82, 0x81, 0x41]),
        raw(0x42F2, &[0x04]),
        raw(0x42F3, &[]),
    ]);
    let total = bytes.len() as u64;
    let mut r = reader(bytes);
    let parsed = parse_ebml_header(&mut r).unwrap();
    assert_eq!(parsed.doctype, "matroska");
    assert_eq!(parsed.ebml_max_id_length, 4);
    assert_eq!(parsed.ebml_max_size_length, 8);
    assert_eq!(r.position(), total);
    assert_eq!(
        r.diagnostics(),
        &vec![Diagnostic::UnknownChild { parent: 0x1A45_DFA3, id: 0xEC }]
    );
}

#[test]
fn flat_header_holds_the_fixed_values() {
    let mut r = reader(header(vec![raw(0x4282, b"webm")]));
    match parse_ebml_header(&mut r) {
        Err(ParseError::InvalidMatroskaValue(MatroskaValue::DocType(found))) => {
            assert_eq!(found, "webm")
        }
        other => panic!("unexpected result {:?}", other),
    }
    let mut r = reader(header(vec![]));
    assert!(matches!(
        parse_ebml_header(&mut r),
        Err(ParseError::InvalidMatroskaValue(MatroskaValue::DocType(_)))
    ));
    let mut r = reader(header(vec![raw(0x4282, b"matroska"), raw(0x42F2, &[0x00, 0x05])]));
    assert!(matches!(
        parse_ebml_header(&mut r),
        Err(ParseError::InvalidMatroskaValue(MatroskaValue::MaxIdLength(5)))
    ));
    let mut r = reader(header(vec![raw(0x4282, b"matroska"), raw(0x42F3, &[0x04])]));
    assert!(matches!(
        parse_ebml_header(&mut r),
        Err(ParseError::InvalidMatroskaValue(MatroskaValue::MaxSizeLength(4)))
    ));
    let mut r = reader(header(vec![raw(0x4282, b"matroska"), raw(0xEC, &[1]), raw(0x42F3, &[9])]));
    assert!(parse_ebml_header(&mut r).is_err());
    assert!(r.diagnostics().is_empty());
}

#[test]
fn flat_header_fails_where_the_input_does() {
    let mut r = reader(vec![]);
    assert!(matches!(parse_ebml_header(&mut r), Err(ParseError::UnexpectedEOF)));
    let mut r = reader(raw(0x1853_8067, &[]).to_bytes().unwrap());
    assert!(matches!(parse_ebml_header(&mut r), Err(ParseError::UnexpectedEOF)));
    assert_eq!(r.position(), 0);
    let mut bytes = header(vec![raw(0x4282, b"matroska")]);
    bytes.pop();
    let mut r = reader(bytes);
    assert!(matches!(parse_ebml_header(&mut r), Err(ParseError::UnexpectedEOF)));
    let mut r = reader(header(vec![raw(0x4282, b"matro\tska")]));
    assert!(matches!(parse_ebml_header(&mut r), Err(ParseError::InvalidString)));
    assert_eq!(r.position(), 5);
    assert!(r.diagnostics().is_empty());
    let mut r = reader(header(vec![raw(0x42F2, &[0; 9])]));
    assert!(matches!(parse_ebml_header(&mut r), Err(ParseError::IntegerTooLong(9))));
    let mut r = reader(vec![0x1A, 0x45, 0xDF, 0xA3, 0x81, 0xEC, 0x81, 0x00]);
    assert!(matches!(parse_ebml_header(&mut r), Err(ParseError::ElementOverrun)));
}
