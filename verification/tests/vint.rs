use mkvedit::ebml::error::{EbmlError, ParseError};
use mkvedit::ebml::source::ByteSource;
use mkvedit::ebml::vint::{
    encode_id, encode_size, encode_vint, id_length_of, leading_zeros_u8, marker_of, read_vint,
    size_length_of, EbmlId, EbmlSize, RawVint, VintRead,
};

#[test]
fn test_read_raw_vint() {
    let cases = vec![
        (vec![0x83], 1, 0x83),
        (vec![0x4F, 0xAB], 2, 0x4FAB),
        (vec![0x1A, 0x13, 0xBB, 0x00], 4, 0x1A13BB00),
        (
            vec![0x01, 0x00, 0xFF, 0x00, 0xFF, 0x00, 0xFF, 0x00],
            8,
            0x0100FF00FF00FF00,
        ),
    ];

    for (input, expected_length, expected_value) in cases {
        let mut cursor = ByteSource::new(input.clone());
        let raw_vint = RawVint::read_from(&mut cursor).unwrap().unwrap();
        assert_eq!(
            raw_vint.length, expected_length,
            "input {:#02x?}, expected length {}, got {}",
            input, expected_length, raw_vint.length
        );
        assert_eq!(
            raw_vint.value, expected_value,
            "input {:#02x?}, expected value {:#x}, got {:#x}",
            input, expected_value, raw_vint.value
        );
    }
}

#[test]
fn test_rawint_eof() {
    let data = vec![];
    let mut cursor = ByteSource::new(data);
    let result = RawVint::read_from(&mut cursor);
    assert!(matches!(result, Ok(None)));
}

#[test]
fn test_no_vint_marker() {
    let data = vec![0x00]; // Invalid VINT, no VINT_MARKER in first byte
    let mut cursor = ByteSource::new(data);
    let result = RawVint::read_from(&mut cursor);
    assert!(matches!(result, Err(ParseError::NoVINTMarker)));
}

#[test]
fn test_unexpected_eof() {
    let cases = vec![
        vec![0x01, 0x00, 0x00, 0x00, 0x00, 0x00, 0x00], // Length = 8 but only 7 bytes provided
        vec![0x08, 0x00, 0x00],                         // Length = 5 but only 3 bytes provided
        vec![0x10, 0x00],                               // Length = 4 but only 2 bytes provided
        vec![0x20, 0x00],                               // Length = 3 but only 2 bytes provided
    ];

    for input in cases {
        let mut cursor = ByteSource::new(input.clone());
        let result = RawVint::read_from(&mut cursor);
        assert!(
            matches!(result, Err(ParseError::UnexpectedEOFInVINT)),
            "input {:#02x?}, expected Err(ParseError::UnexpectedEOFInVINT) got {:?}",
            input,
            result
        );
    }
}

#[test]
fn raw_vint_moves_the_position_on_success_only() {
    let mut cursor = ByteSource::new(vec![0x4F, 0xAB, 0x00]);
    RawVint::read_from(&mut cursor).unwrap().unwrap();
    assert_eq!(cursor.position(), 2);
    assert!(RawVint::read_from(&mut cursor).is_err());
    assert_eq!(cursor.position(), 2);
}

#[test]
fn leading_zeros_of_every_marker_position() {
    assert_eq!(leading_zeros_u8(0x80), 0);
    assert_eq!(leading_zeros_u8(0xFF), 0);
    assert_eq!(leading_zeros_u8(0x40), 1);
    assert_eq!(leading_zeros_u8(0x1A), 3);
    assert_eq!(leading_zeros_u8(0x01), 7);
    assert_eq!(leading_zeros_u8(0x00), 8);
}

#[test]
fn single_byte_vint_in_both_flavors() {
    let mut as_size = ByteSource::new(vec![0b1001_1100]);
    let size = EbmlSize::read_from(&mut as_size).unwrap();
    assert_eq!(size, EbmlSize { value: 0b0001_1100, length: 1 });

    let mut as_id = ByteSource::new(vec![0b1001_1100]);
    let id = EbmlId::read_from(&mut as_id).unwrap();
    assert_eq!(id, EbmlId { value: 0b1001_1100, length: 1 });
}

#[test]
fn header_identifier_is_four_bytes() {
    let mut source = ByteSource::new(vec![0x1A, 0x45, 0xDF, 0xA3]);
    let id = EbmlId::read_from(&mut source).unwrap();
    assert_eq!(id, EbmlId { value: 0x1A45_DFA3, length: 4 });
    assert_eq!(source.position(), 4);
}

#[test]
fn flavors_report_their_errors() {
    let mut empty = ByteSource::new(vec![]);
    assert_eq!(EbmlId::read_from(&mut empty), Err(EbmlError::UnexpectedEof));
    assert_eq!(EbmlSize::read_from(&mut empty), Err(EbmlError::UnexpectedEof));
    let mut no_marker = ByteSource::new(vec![0x00, 0x01]);
    assert_eq!(EbmlId::read_from(&mut no_marker), Err(EbmlError::InvalidVint));
    let mut cut = ByteSource::new(vec![0x40]);
    assert_eq!(EbmlSize::read_from(&mut cut), Err(EbmlError::UnexpectedEof));
}

#[test]
fn read_vint_looks_at_any_position() {
    let source = ByteSource::new(vec![0xFF, 0x42, 0x86, 0x00]);
    assert_eq!(read_vint(&source, 1), VintRead::Value(RawVint { value: 0x4286, length: 2 }));
    assert_eq!(read_vint(&source, 3), VintRead::NoMarker);
    assert_eq!(read_vint(&source, 4), VintRead::End);
    assert_eq!(source.position(), 0);
}

#[test]
fn size_lengths_are_minimal() {
    assert_eq!(size_length_of(0), Some(1));
    assert_eq!(size_length_of(0x7F), Some(1));
    assert_eq!(size_length_of(0x80), Some(2));
    assert_eq!(size_length_of(0x3FFF), Some(2));
    assert_eq!(size_length_of(0x4000), Some(3));
    assert_eq!(size_length_of(0x00FF_FFFF_FFFF_FFFF), Some(8));
    assert_eq!(size_length_of(0x0100_0000_0000_0000), None);
}

#[test]
fn id_lengths_follow_the_marker() {
    assert_eq!(id_length_of(0x80), Some(1));
    assert_eq!(id_length_of(0x4286), Some(2));
    assert_eq!(id_length_of(0x1A45_DFA3), Some(4));
    assert_eq!(id_length_of(0x0100_0000_0000_0000), Some(8));
    assert_eq!(id_length_of(0), None);
    assert_eq!(id_length_of(0x7F), None);
    assert_eq!(id_length_of(0x100), None);
}

#[test]
fn encode_exact_bytes() {
    assert_eq!(encode_size(15).unwrap(), vec![0x8F]);
    assert_eq!(encode_size(0x80).unwrap(), vec![0x40, 0x80]);
    assert_eq!(encode_size(0x1EAC12).unwrap(), vec![0x3E, 0xAC, 0x12]);
    assert_eq!(encode_size(0x20_0000).unwrap(), vec![0x10, 0x20, 0x00, 0x00]);
    assert_eq!(encode_id(0x1A45_DFA3).unwrap(), vec![0x1A, 0x45, 0xDF, 0xA3]);
    assert_eq!(encode_id(0x4282).unwrap(), vec![0x42, 0x82]);
    assert_eq!(encode_vint(0x1100, 2), vec![0x51, 0x00]);
    assert_eq!(encode_vint(0x5100, 2), vec![0x51, 0x00]);
    assert_eq!(encode_vint(1, 8), vec![0x01, 0, 0, 0, 0, 0, 0, 0x01]);
}

#[test]
fn encode_refuses_what_cannot_be_written() {
    assert_eq!(encode_id(0x100), Err(EbmlError::InvalidId));
    assert_eq!(encode_id(0), Err(EbmlError::InvalidId));
    assert_eq!(encode_size(0x0100_0000_0000_0000), Err(EbmlError::SizeTooLarge));
    assert_eq!(encode_size(u64::MAX), Err(EbmlError::SizeTooLarge));
}

#[test]
fn decode_of_encode_is_identity() {
    let sizes: Vec<u64> = vec![
        0,
        1,
        0x7E,
        0x7F,
        0x80,
        0x3FFF,
        0x4000,
        0x1F_FFFF,
        0x20_0000,
        0x0FFF_FFFF,
        0x1000_0000,
        0x07_FFFF_FFFF,
        0x08_0000_0000,
        0x03FF_FFFF_FFFF,
        0x0400_0000_0000,
        0x01_FFFF_FFFF_FFFF,
        0x02_0000_0000_0000,
        0x00FF_FFFF_FFFF_FFFF,
    ];
    for value in sizes {
        let bytes = encode_size(value).unwrap();
        let length = bytes.len() as u8;
        assert_eq!(Some(length), size_length_of(value));
        let mut source = ByteSource::new(bytes);
        assert_eq!(EbmlSize::read_from(&mut source), Ok(EbmlSize { value, length }));
    }
    let ids: Vec<u64> = vec![
        0x80,
        0xEC,
        0xFF,
        0x4000,
        0x4286,
        0x7FFF,
        0x20_0000,
        0x3E_AC12,
        0x1000_0000,
        0x1A45_DFA3,
        0x1853_8067,
        0x08_0000_0001,
        0x0400_0000_0001,
        0x02_0000_0000_0001,
        0x01FF_FFFF_FFFF_FFFF,
    ];
    for value in ids {
        let bytes = encode_id(value).unwrap();
        let length = bytes.len() as u8;
        assert_eq!(Some(length), id_length_of(value));
        let mut source = ByteSource::new(bytes);
        assert_eq!(EbmlId::read_from(&mut source), Ok(EbmlId { value, length }));
    }
}

#[test]
fn markers() {
    assert_eq!(marker_of(1), 0x80);
    assert_eq!(marker_of(2), 1 << 14);
    assert_eq!(marker_of(4), 1 << 28);
    assert_eq!(marker_of(8), 1 << 56);
    assert_eq!(marker_of(0), 0);
    assert_eq!(marker_of(9), 0);
}
