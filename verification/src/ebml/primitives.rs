//! The payloads that the typed layer decodes: unsigned integers and strings.

use vstd::prelude::*;
use crate::ebml::error::{IoErrorKind, ParseError};
use crate::ebml::source::{window, ByteSource};
use crate::ebml::vint::{be_value, byte_span};
use crate::util::text::push_char;

verus! {

/// Why a payload is no value of the type that was asked for.
#[derive(Debug, Clone, Copy, PartialEq, Eq, Structural)]
pub enum ValueError {
    /// An integer payload without bytes: the element carries no value.
    EmptyInteger,
    /// An integer payload of more than eight bytes; the length is given.
    IntegerTooLong(u64),
    /// A string payload with a byte outside the printable ASCII range.
    NotPrintable,
}

/// A printable ASCII character, the space included.
pub open spec fn is_printable(byte: u8) -> bool {
    0x20 <= byte <= 0x7E
}

/// Every byte is a printable ASCII character.
pub open spec fn all_printable(bytes: Seq<u8>) -> bool {
    forall|i: int| 0 <= i < bytes.len() ==> is_printable(#[trigger] bytes[i])
}

/// The text that ASCII bytes spell.
pub open spec fn ascii_text(bytes: Seq<u8>) -> Seq<char> {
    Seq::new(bytes.len(), |i: int| bytes[i] as char)
}

/// The number that at most eight bytes spell in big-endian order.
fn be_u64(bytes: &Vec<u8>) -> (value: u64)
    requires
        bytes@.len() <= 8,
    ensures
        value == be_value(bytes@),
{
    let mut value: u64 = 0;
    let mut i: usize = 0;
    assert(bytes@.subrange(0, 0) =~= Seq::<u8>::empty());
    while i < bytes.len()
        invariant
            i <= bytes@.len() <= 8,
            value == be_value(bytes@.subrange(0, i as int)),
            value < byte_span(i as int),
        decreases bytes@.len() - i,
    {
        let b: u8 = bytes[i];
        let ghost prev = value;
        assert((prev << 8) | (b as u64) == prev * 256 + b) by (bit_vector)
            requires
                prev < 0x100_0000_0000_0000u64,
        ;
        value = (value << 8) | (b as u64);
        proof {
            let s = bytes@.subrange(0, i + 1);
            assert(s.drop_last() =~= bytes@.subrange(0, i as int));
            assert(s.last() == b);
        }
        i = i + 1;
    }
    assert(bytes@.subrange(0, bytes@.len() as int) =~= bytes@);
    value
}

/// What a payload is as an unsigned integer.
pub open spec fn u64_of(bytes: Seq<u8>) -> Result<u64, ValueError> {
    if bytes.len() == 0 {
        Err(ValueError::EmptyInteger)
    } else if bytes.len() > 8 {
        Err(ValueError::IntegerTooLong(bytes.len() as u64))
    } else {
        Ok(be_value(bytes) as u64)
    }
}

/// Decodes a payload as a big-endian unsigned integer of one to eight
/// bytes.
pub fn parse_u64(bytes: Vec<u8>) -> (r: Result<u64, ValueError>)
    ensures
        r == u64_of(bytes@),
{
    let len: usize = bytes.len();
    if len == 0 {
        Err(ValueError::EmptyInteger)
    } else if len > 8 {
        Err(ValueError::IntegerTooLong(len as u64))
    } else {
        Ok(be_u64(&bytes))
    }
}

/// Decodes a payload as text: every byte has to be a printable ASCII
/// character, and the text holds one character for each.
pub fn parse_string(bytes: Vec<u8>) -> (r: Result<String, ValueError>)
    ensures
        match r {
            Ok(text) => all_printable(bytes@) && text@ == ascii_text(bytes@),
            Err(e) => !all_printable(bytes@) && e == ValueError::NotPrintable,
        },
{
    let mut text: String = String::new();
    let mut i: usize = 0;
    while i < bytes.len()
        invariant
            i <= bytes@.len(),
            all_printable(bytes@.subrange(0, i as int)),
            text@ == ascii_text(bytes@.subrange(0, i as int)),
        decreases bytes@.len() - i,
    {
        let b: u8 = bytes[i];
        if b < 0x20 || b > 0x7E {
            assert(!is_printable(bytes@[i as int]));
            return Err(ValueError::NotPrintable);
        }
        push_char(&mut text, b as char);
        proof {
            let before = bytes@.subrange(0, i as int);
            let after = bytes@.subrange(0, i + 1);
            assert(after =~= before.push(b));
            assert(text@ =~= ascii_text(after));
            assert forall|j: int| 0 <= j < after.len() implies is_printable(#[trigger] after[j]) by {
                if j < i {
                    assert(after[j] == before[j]);
                }
            }
        }
        i = i + 1;
    }
    assert(bytes@.subrange(0, bytes@.len() as int) =~= bytes@);
    Ok(text)
}

/// What `read_unsigned_integer` returns for `size` bytes at `pos` of
/// `bytes`.
pub open spec fn unsigned_at(bytes: Seq<u8>, pos: int, size: int) -> Result<u64, ParseError> {
    if size > 8 {
        Err(ParseError::IntegerTooLong(size as u64))
    } else {
        match window(bytes, pos, size) {
            None => Err(ParseError::Io(IoErrorKind::UnexpectedEof)),
            Some(payload) => Ok(be_value(payload) as u64),
        }
    }
}

/// Reads `size` bytes at the read position as a big-endian unsigned integer.
///
/// No bytes at all spell zero; more than eight are refused. On success the
/// read position stands behind the bytes; otherwise it has not moved.
pub fn read_unsigned_integer(reader: &mut ByteSource, size: u64) -> (r: Result<u64, ParseError>)
    ensures
        r == unsigned_at(old(reader).bytes(), old(reader).pos() as int, size as int),
        final(reader).bytes() == old(reader).bytes(),
        final(reader).pos() == (if r is Ok {
            old(reader).pos() + size
        } else {
            old(reader).pos() as int
        }),
{
    if size > 8 {
        return Err(ParseError::IntegerTooLong(size));
    }
    match reader.read_exact(size) {
        None => Err(ParseError::Io(IoErrorKind::UnexpectedEof)),
        Some(payload) => Ok(be_u64(&payload)),
    }
}

/// Reads `size` bytes at the read position as text.
///
/// The bytes have to be there, else the error is `Io(UnexpectedEof)`; and
/// each has to be a printable ASCII character, else it is `InvalidString`.
/// On success the read position stands behind the bytes; otherwise it has
/// not moved.
pub fn read_string(reader: &mut ByteSource, size: u64) -> (r: Result<String, ParseError>)
    ensures
        final(reader).bytes() == old(reader).bytes(),
        match window(old(reader).bytes(), old(reader).pos() as int, size as int) {
            None => r matches Err(ParseError::Io(IoErrorKind::UnexpectedEof)),
            Some(payload) => if all_printable(payload) {
                r matches Ok(text) && text@ == ascii_text(payload)
            } else {
                r matches Err(ParseError::InvalidString)
            },
        },
        final(reader).pos() == (if r is Ok {
            old(reader).pos() + size
        } else {
            old(reader).pos() as int
        }),
{
    let start: u64 = reader.position();
    let payload: Vec<u8> = match reader.slice(start, size) {
        None => {
            return Err(ParseError::Io(IoErrorKind::UnexpectedEof));
        },
        Some(payload) => payload,
    };
    match parse_string(payload) {
        Ok(text) => {
            proof {
                reader.lemma_len_fits();
            }
            reader.seek(start + size);
            Ok(text)
        },
        Err(_) => Err(ParseError::InvalidString),
    }
}

} // verus!
