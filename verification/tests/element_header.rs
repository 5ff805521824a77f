use mkvedit::ebml::element_header::{ElementHeader, ElementId, ElementSize};
use mkvedit::ebml::error::ParseError;
use mkvedit::ebml::source::ByteSource;
use mkvedit::ebml::vint::RawVint;

#[test]
fn test_read_element_id() {
    // Element Id's values are taken directly from raw_vint
    let cases = vec![
        (vec![0b1001_1100], 1, 0b1001_1100),
        (vec![0b0101_0001, 0x00], 2, 0x5100),
        (vec![0b0011_1110, 0xAC, 0x12], 3, 0x3EAC12),
        (vec![0b0001_1111, 0xFF, 0xEE, 0xDD], 4, 0x1FFFEEDD),
    ];

    for (input, expected_length, expected_value) in cases {
        let mut cursor = ByteSource::new(input.clone());
        let element_id = ElementId::read_from(&mut cursor).unwrap().unwrap();
        assert_eq!(
            element_id.length, expected_length,
            "input {:#02x?}, expected length {}, got {}",
            input, expected_length, element_id.length
        );
        assert_eq!(
            element_id.value, expected_value,
            "input {:#02x?}, expected value {:#x}, got {:#x}",
            input, expected_value, element_id.value
        );
    }
}

#[test]
fn test_read_element_id_invalid_length() {
    let data = vec![0b0000_1111, 0xFF, 0xEE, 0xDD, 0xCC]; // Length 5, invalid
    let mut cursor = ByteSource::new(data);
    let result = ElementId::read_from(&mut cursor);
    assert!(matches!(result, Err(ParseError::InvalidElementIdLength(5))));
}

#[test]
fn test_read_element_size() {
    let cases = vec![
        (vec![0b1001_1100], 1, 0b0001_1100),
        (vec![0b0101_0001, 0x00], 2, 0x1100),
        (vec![0b0011_1110, 0xAC, 0x12], 3, 0x1EAC12),
        (vec![0b0001_1111, 0xFF, 0xEE, 0xDD], 4, 0x0FFFEEDD),
    ];

    for (input, expected_length, expected_value) in cases {
        let mut cursor = ByteSource::new(input.clone());
        let element_size = ElementSize::read_from(&mut cursor).unwrap().unwrap();
        assert_eq!(
            element_size.length, expected_length,
            "input {:#02x?}, expected length {}, got {}",
            input, expected_length, element_size.length
        );
        assert_eq!(
            element_size.value, expected_value,
            "input {:#02x?}, expected value {:#x}, got {:#x}",
            input, expected_value, element_size.value
        );
    }
}

#[test]
fn test_read_element_header() {
    let header_bytes = vec![
        // Element ID (EBML Header ID)
        0x1A,
        0x45,
        0xDF,
        0xA3,
        // Element Size
        (0b1000_0000 + 15), // Size: 15 bytes
    ];

    let mut cursor = ByteSource::new(header_bytes);
    let element_header = ElementHeader::read_from(&mut cursor).unwrap().unwrap();
    assert_eq!(element_header.id.length, 4);
    assert_eq!(element_header.id.value, 0x1A45DFA3);
    assert_eq!(element_header.data_size.length, 1);
    assert_eq!(element_header.data_size.value, 15);
    assert_eq!(element_header.header_size, 5);
}

#[test]
fn test_read_element_header_eof() {
    let header_bytes = vec![
        // Element ID (incomplete)
        0x1A, 0x45,
    ];

    let mut cursor = ByteSource::new(header_bytes);
    let result = ElementHeader::read_from(&mut cursor);
    assert!(matches!(
        result,
        Err(ParseError::UnexpectedEOFElementHeader)
    ));
}

#[test]
fn test_read_element_header_empty() {
    let header_bytes = vec![];

    let mut cursor = ByteSource::new(header_bytes);
    let result = ElementHeader::read_from(&mut cursor);
    assert!(matches!(result, Ok(None)));
}

#[test]
fn header_without_a_size_is_cut_short() {
    let mut missing = ByteSource::new(vec![0x1A, 0x45, 0xDF, 0xA3]);
    assert!(matches!(
        ElementHeader::read_from(&mut missing),
        Err(ParseError::UnexpectedEOFElementHeader)
    ));
    assert_eq!(missing.position(), 0);

    let mut cut = ByteSource::new(vec![0x1A, 0x45, 0xDF, 0xA3, 0x40]);
    assert!(matches!(ElementHeader::read_from(&mut cut), Err(ParseError::UnexpectedEOFInVINT)));
    assert_eq!(cut.position(), 0);

    let mut no_marker = ByteSource::new(vec![0x1A, 0x45, 0xDF, 0xA3, 0x00]);
    assert!(matches!(ElementHeader::read_from(&mut no_marker), Err(ParseError::NoVINTMarker)));
}

#[test]
fn size_from_raw_vint_clears_the_marker() {
    let size = ElementSize::from_raw_vint(&RawVint { value: 0x4FAB, length: 2 });
    assert_eq!(size, ElementSize { value: 0x0FAB, length: 2 });
    let size = ElementSize::from_raw_vint(&RawVint { value: 0x0100_0000_0000_0007, length: 8 });
    assert_eq!(size, ElementSize { value: 7, length: 8 });
    let unmarked = ElementSize::from_raw_vint(&RawVint { value: 0x0FAB, length: 2 });
    assert_eq!(unmarked, ElementSize { value: 0x0FAB, length: 2 });
}
