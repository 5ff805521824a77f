use mkvedit::ebml::error::{EbmlError, IoErrorKind};
use mkvedit::ebml::reader::{
    read_element, read_element_within, read_root, ByteRange, EbmlReader, EbmlSchema, ParsedElement,
};
use mkvedit::ebml::source::ByteSource;
use mkvedit::ebml::writer::{write_header, Element};
use mkvedit::matroska::{MatroskaSchema, ProbeSchema};

struct Flat;

impl EbmlSchema for Flat {
    fn is_master(_id: u64) -> bool {
        false
    }
}

fn reader(bytes: Vec<u8>) -> EbmlReader {
    EbmlReader::new(ByteSource::new(bytes))
}

fn range(start: u64, length: u64) -> ByteRange {
    ByteRange { start, length }
}

fn same(a: &ParsedElement, b: &ParsedElement) -> bool {
    a.id == b.id
        && a.header == b.header
        && a.data == b.data
        && match (&a.children, &b.children) {
            (None, None) => true,
            (Some(x), Some(y)) => x.len() == y.len() && x.iter().zip(y.iter()).all(|(p, q)| same(p, q)),
            _ => false,
        }
}

#[test]
fn empty_source_has_no_elements() {
    let mut r = reader(vec![]);
    let root = read_root::<MatroskaSchema>(&mut r).unwrap();
    assert!(root.is_empty());
    assert_eq!(r.position(), 0);
}

#[test]
fn source_that_ends_at_a_boundary_stops_cleanly() {
    // two leaves: 0xEC with one byte, 0xBF with none
    let mut r = reader(vec![0xEC, 0x81, 0x00, 0xBF, 0x80]);
    let root = read_root::<Flat>(&mut r).unwrap();
    assert_eq!(root.len(), 2);
    assert_eq!(root[0].id, 0xEC);
    assert_eq!(root[0].header, range(0, 2));
    assert_eq!(root[0].data, range(2, 1));
    assert!(root[0].children.is_none());
    assert_eq!(root[1].id, 0xBF);
    assert_eq!(root[1].header, range(3, 2));
    assert_eq!(root[1].data, range(5, 0));
    assert_eq!(r.position(), 5);
}

#[test]
fn payload_longer_than_the_input_is_exhaustion() {
    // header declares 15 bytes, 3 are there
    let bytes = vec![0x1A, 0x45, 0xDF, 0xA3, 0x8F, 0x42, 0x82, 0x80];
    let mut r = reader(bytes.clone());
    assert_eq!(read_root::<MatroskaSchema>(&mut r).unwrap_err(), EbmlError::UnexpectedEof);
    assert_eq!(r.position(), 0);
    let mut r = reader(bytes.clone());
    assert_eq!(read_element::<MatroskaSchema>(&mut r).unwrap_err(), EbmlError::UnexpectedEof);
    // the same for a leaf
    let mut r = reader(vec![0xEC, 0x82, 0x00]);
    assert_eq!(read_root::<Flat>(&mut r).unwrap_err(), EbmlError::UnexpectedEof);
}

#[test]
fn truncated_header_is_exhaustion() {
    let mut r = reader(vec![0x1A, 0x45]);
    assert_eq!(read_root::<MatroskaSchema>(&mut r).unwrap_err(), EbmlError::UnexpectedEof);
    let mut r = reader(vec![0x1A, 0x45, 0xDF, 0xA3]);
    assert_eq!(read_root::<MatroskaSchema>(&mut r).unwrap_err(), EbmlError::UnexpectedEof);
    let mut r = reader(vec![0x1A, 0x45, 0xDF, 0xA3, 0x40]);
    assert_eq!(read_root::<MatroskaSchema>(&mut r).unwrap_err(), EbmlError::UnexpectedEof);
    let mut r = reader(vec![]);
    assert_eq!(read_element::<MatroskaSchema>(&mut r).unwrap_err(), EbmlError::UnexpectedEof);
}

#[test]
fn missing_marker_is_invalid() {
    let mut r = reader(vec![0x00, 0x80]);
    assert_eq!(read_root::<Flat>(&mut r).unwrap_err(), EbmlError::InvalidVint);
    let mut r = reader(vec![0xEC, 0x00]);
    assert_eq!(read_root::<Flat>(&mut r).unwrap_err(), EbmlError::InvalidVint);
}

#[test]
fn child_that_overruns_its_parent_is_refused() {
    // header of 3 bytes holding a child that declares 2 bytes of payload,
    // followed by more input so that the bytes are there
    let bytes = vec![0x1A, 0x45, 0xDF, 0xA3, 0x83, 0x42, 0x82, 0x82, 0x6D, 0x61, 0xEC, 0x80];
    let mut r = reader(bytes);
    assert_eq!(read_root::<MatroskaSchema>(&mut r).unwrap_err(), EbmlError::ElementOverrun);
    assert_eq!(r.position(), 0);
    // a child whose header crosses the end of its parent
    let bytes = vec![0x1A, 0x45, 0xDF, 0xA3, 0x81, 0x42, 0x82, 0x80];
    let mut r = reader(bytes);
    assert_eq!(read_root::<MatroskaSchema>(&mut r).unwrap_err(), EbmlError::ElementOverrun);
}

#[test]
fn element_within_a_limit() {
    let bytes = vec![0xEC, 0x82, 0x00, 0x00, 0xBF, 0x80];
    let mut r = reader(bytes.clone());
    assert_eq!(read_element_within::<Flat>(&mut r, 3).unwrap_err(), EbmlError::ElementOverrun);
    assert_eq!(r.position(), 0);
    let element = read_element_within::<Flat>(&mut r, 4).unwrap();
    assert_eq!(element.data, range(2, 2));
    assert_eq!(r.position(), 4);
}

#[test]
fn unknown_child_is_not_taken_for_a_header() {
    // the payload of the unknown child 0xEC looks like a docType element
    let tree = Element::Master {
        id: 0x1A45_DFA3,
        children: vec![
            Element::Raw { id: 0xEC, data: vec![0x42, 0x82, 0x81, 0x41] },
            Element::Raw { id: 0x4282, data: b"matroska".to_vec() },
        ],
    };
    let bytes = tree.to_bytes().unwrap();
    let mut r = reader(bytes);
    let header = read_element::<MatroskaSchema>(&mut r).unwrap();
    let children = header.children.as_ref().unwrap();
    assert_eq!(children.len(), 2);
    assert_eq!(children[0].id, 0xEC);
    assert_eq!(children[0].data, range(7, 4));
    assert!(children[0].children.is_none());
    assert_eq!(children[1].id, 0x4282);
    assert_eq!(children[1].header, range(11, 3));
    assert_eq!(children[1].data, range(14, 8));
}

#[test]
fn writer_gives_exact_bytes() {
    let leaf = Element::Raw { id: 0x4286, data: vec![0x01] };
    assert_eq!(leaf.to_bytes().unwrap(), vec![0x42, 0x86, 0x81, 0x01]);
    let tree = Element::Master {
        id: 0x1A45DFA3,
        children: vec![
            Element::Raw { id: 0x4286, data: vec![0x01] },
            Element::Raw { id: 0x42F7, data: vec![0x01] },
            Element::Raw { id: 0x42F2, data: vec![0x04] },
        ],
    };
    assert_eq!(
        tree.to_bytes().unwrap(),
        vec![
            0x1A, 0x45, 0xDF, 0xA3, 0x8C, 0x42, 0x86, 0x81, 0x01, 0x42, 0xF7, 0x81, 0x01, 0x42,
            0xF2, 0x81, 0x04
        ]
    );
    let root = Element::Root {
        children: vec![
            Element::Raw { id: 0xEC, data: vec![] },
            Element::Master { id: 0xBF, children: vec![] },
        ],
    };
    assert_eq!(root.to_bytes().unwrap(), vec![0xEC, 0x80, 0xBF, 0x80]);
    let long = Element::Raw { id: 0xEC, data: vec![7; 200] };
    let bytes = long.to_bytes().unwrap();
    assert_eq!(&bytes[..3], &[0xEC, 0x40, 200]);
    assert_eq!(bytes.len(), 203);
}

#[test]
fn writer_refuses_identifiers_that_are_none() {
    let bad = Element::Raw { id: 0x100, data: vec![] };
    assert_eq!(bad.to_bytes().unwrap_err(), EbmlError::InvalidId);
    let nested = Element::Master {
        id: 0x1A45_DFA3,
        children: vec![Element::Raw { id: 0xEC, data: vec![] }, Element::Master { id: 0, children: vec![] }],
    };
    assert_eq!(nested.to_bytes().unwrap_err(), EbmlError::InvalidId);
}

#[test]
fn what_is_written_is_read_back() {
    let tree = Element::Master {
        id: 0x1A45_DFA3,
        children: vec![
            Element::Raw { id: 0x4286, data: vec![0x01] },
            Element::Raw { id: 0x4282, data: b"matroska".to_vec() },
            Element::Raw { id: 0xEC, data: vec![0; 130] },
        ],
    };
    let bytes = tree.to_bytes().unwrap();
    let total = bytes.len() as u64;
    let mut r = reader(bytes.clone());
    let element = read_element::<ProbeSchema>(&mut r).unwrap();
    assert_eq!(r.position(), total);
    let expected = ParsedElement {
        id: 0x1A45_DFA3,
        header: range(0, 6),
        data: range(6, 4 + 11 + 133),
        children: Some(vec![
            ParsedElement { id: 0x4286, header: range(6, 3), data: range(9, 1), children: None },
            ParsedElement { id: 0x4282, header: range(10, 3), data: range(13, 8), children: None },
            ParsedElement { id: 0xEC, header: range(21, 3), data: range(24, 130), children: None },
        ]),
    };
    assert!(same(&element, &expected));
    assert_eq!(total, 154);
    // the payload ranges hold the payloads
    assert_eq!(&bytes[13..21], b"matroska");
    let copy = element.clone();
    assert!(same(&copy, &expected));
}

#[test]
fn root_is_read_back_as_a_sequence() {
    let root = Element::Root {
        children: vec![
            Element::Master { id: 0x1A45_DFA3, children: vec![] },
            Element::Master {
                id: 0x1853_8067,
                children: vec![Element::Raw { id: 0x1549_A966, data: vec![1, 2, 3] }],
            },
        ],
    };
    let bytes = root.to_bytes().unwrap();
    let mut r = reader(bytes);
    let elements = read_root::<MatroskaSchema>(&mut r).unwrap();
    assert_eq!(elements.len(), 2);
    assert_eq!(elements[0].id, 0x1A45_DFA3);
    assert_eq!(elements[0].children.as_ref().unwrap().len(), 0);
    assert_eq!(elements[1].id, 0x1853_8067);
    let kids = elements[1].children.as_ref().unwrap();
    assert_eq!(kids.len(), 1);
    assert_eq!(kids[0].id, 0x1549_A966);
    assert_eq!(kids[0].header, range(10, 5));
    assert_eq!(kids[0].data, range(15, 3));
    assert!(kids[0].children.is_none());
}

#[test]
fn read_range_copies_the_payload() {
    let mut r = reader(vec![1, 2, 3, 4, 5]);
    assert_eq!(r.read_range(&range(1, 3)).unwrap(), vec![2, 3, 4]);
    assert_eq!(r.position(), 4);
    assert_eq!(r.read_range(&range(5, 0)).unwrap(), Vec::<u8>::new());
    assert_eq!(
        r.read_range(&range(3, 3)).unwrap_err(),
        EbmlError::Io(IoErrorKind::UnexpectedEof)
    );
    assert_eq!(r.position(), 3);
    assert_eq!(
        r.read_range(&range(u64::MAX, 2)).unwrap_err(),
        EbmlError::Io(IoErrorKind::UnexpectedEof)
    );
}

#[test]
fn reader_reads_identifier_and_size() {
    let mut r = reader(vec![0x42, 0x86, 0x81, 0x01]);
    assert!(!r.at_eof());
    assert_eq!(r.read_id().unwrap().value, 0x4286);
    assert_eq!(r.read_size().unwrap().value, 1);
    assert_eq!(r.position(), 3);
    assert_eq!(r.len(), 4);
    r.seek(4);
    assert!(r.at_eof());
    assert_eq!(r.read_id().unwrap_err(), EbmlError::UnexpectedEof);
}

#[test]
fn header_alone_is_written() {
    assert_eq!(write_header(0x1A45_DFA3, 15).unwrap(), vec![0x1A, 0x45, 0xDF, 0xA3, 0x8F]);
    assert_eq!(write_header(0xEC, 0x80).unwrap(), vec![0xEC, 0x40, 0x80]);
    assert_eq!(write_header(0x7F, 1).unwrap_err(), EbmlError::InvalidId);
    assert_eq!(write_header(0xEC, 1 << 56).unwrap_err(), EbmlError::SizeTooLarge);
    assert_eq!(write_header(0, 1 << 56).unwrap_err(), EbmlError::InvalidId);
}
