//! Variable-length integers: the primitive behind identifiers and sizes.
//!
//! The first byte tells the length: the integer is as many bytes long as the
//! first byte has leading zero bits, plus one. The bytes are read as one
//! big-endian number, marker bit included.

use vstd::prelude::*;
use vstd::std_specs::bits::{
    axiom_u64_leading_zeros, axiom_u8_leading_zeros, u64_leading_zeros, u8_leading_zeros,
};
use vstd::arithmetic::div_mod::lemma_div_denominator;
use crate::ebml::error::{EbmlError, ParseError};
use crate::ebml::source::{window, ByteSource};

verus! {

/// The length in bytes of the integer that starts with `first`: the place of
/// its highest set bit, counted from the top and from one. Nine where no bit
/// is set.
pub open spec fn vint_length(first: u8) -> int {
    if first >= 0x80 {
        1
    } else if first >= 0x40 {
        2
    } else if first >= 0x20 {
        3
    } else if first >= 0x10 {
        4
    } else if first >= 0x08 {
        5
    } else if first >= 0x04 {
        6
    } else if first >= 0x02 {
        7
    } else if first >= 0x01 {
        8
    } else {
        9
    }
}

/// The marker bit of an integer of `length` bytes, two to the power of seven
/// times `length`; zero for a length outside `1..=8`.
pub open spec fn vint_marker(length: int) -> nat {
    if length == 1 {
        0x80
    } else if length == 2 {
        0x4000
    } else if length == 3 {
        0x20_0000
    } else if length == 4 {
        0x1000_0000
    } else if length == 5 {
        0x08_0000_0000
    } else if length == 6 {
        0x0400_0000_0000
    } else if length == 7 {
        0x02_0000_0000_0000
    } else if length == 8 {
        0x0100_0000_0000_0000
    } else {
        0
    }
}

/// 256 to the power of `count`, for `count` up to eight; zero beyond.
pub open spec fn byte_span(count: int) -> nat {
    if count == 0 {
        1
    } else if count == 1 {
        0x100
    } else if count == 2 {
        0x1_0000
    } else if count == 3 {
        0x100_0000
    } else if count == 4 {
        0x1_0000_0000
    } else if count == 5 {
        0x100_0000_0000
    } else if count == 6 {
        0x1_0000_0000_0000
    } else if count == 7 {
        0x100_0000_0000_0000
    } else if count == 8 {
        0x1_0000_0000_0000_0000
    } else {
        0
    }
}

/// The number that `bytes` spell in big-endian order.
pub open spec fn be_value(bytes: Seq<u8>) -> nat
    decreases bytes.len(),
{
    if bytes.len() == 0 {
        0
    } else {
        be_value(bytes.drop_last()) * 256 + bytes.last() as nat
    }
}

/// A variable-length integer as it stands in the input, marker bit included.
#[derive(Debug, Clone, Copy, PartialEq, Eq, Structural)]
pub struct RawVint {
    pub value: u64,
    /// Between one and eight bytes.
    pub length: u8,
}

/// What stands at a position of the input where a variable-length integer is
/// looked for.
#[derive(Debug, Clone, Copy, PartialEq, Eq, Structural)]
pub enum VintRead {
    /// The input ends at the position: there is no integer.
    End,
    /// The first byte has no bit set.
    NoMarker,
    /// The first byte asks for more bytes than the input holds.
    Truncated,
    /// An integer, with its length.
    Value(RawVint),
}

/// What stands at `pos` of `bytes`.
pub open spec fn vint_at(bytes: Seq<u8>, pos: int) -> VintRead {
    if pos < 0 || pos >= bytes.len() {
        VintRead::End
    } else if bytes[pos] == 0 {
        VintRead::NoMarker
    } else if pos + vint_length(bytes[pos]) > bytes.len() {
        VintRead::Truncated
    } else {
        VintRead::Value(
            RawVint {
                value: be_value(bytes.subrange(pos, pos + vint_length(bytes[pos]))) as u64,
                length: vint_length(bytes[pos]) as u8,
            },
        )
    }
}

/// A big-endian number of up to eight bytes is below 256 to their count.
pub proof fn lemma_be_value_bound(bytes: Seq<u8>)
    requires
        bytes.len() <= 8,
    ensures
        be_value(bytes) < byte_span(bytes.len() as int),
    decreases bytes.len(),
{
    if bytes.len() > 0 {
        lemma_be_value_bound(bytes.drop_last());
    }
}

/// The first byte of a big-endian number weighs 256 to the count of the
/// bytes behind it.
pub proof fn lemma_be_value_front(bytes: Seq<u8>)
    requires
        1 <= bytes.len() <= 8,
    ensures
        be_value(bytes) == bytes[0] * byte_span(bytes.len() - 1) + be_value(bytes.drop_first()),
        be_value(bytes.drop_first()) < byte_span(bytes.len() - 1),
    decreases bytes.len(),
{
    lemma_be_value_bound(bytes.drop_first());
    if bytes.len() == 1 {
        assert(bytes.drop_last() =~= Seq::<u8>::empty());
        assert(bytes.drop_first() =~= Seq::<u8>::empty());
        assert(be_value(bytes.drop_last()) == 0);
    } else {
        let init = bytes.drop_last();
        let tail = bytes.drop_first();
        lemma_be_value_front(init);
        assert(init.drop_first() =~= tail.drop_last());
        assert(tail.last() == bytes.last());
        assert(init[0] == bytes[0]);
        let f = bytes[0] as int;
        let w = byte_span(bytes.len() - 2) as int;
        assert(byte_span(bytes.len() - 1) == 256 * w);
        assert((f * w) * 256 == f * (256 * w)) by (nonlinear_arith);
    }
}

/// An integer that was read carries its marker bit and nothing above it.
pub proof fn lemma_vint_marker_range(bytes: Seq<u8>)
    requires
        1 <= bytes.len() <= 8,
        vint_length(bytes[0]) == bytes.len(),
    ensures
        vint_marker(bytes.len() as int) <= be_value(bytes) < 2 * vint_marker(bytes.len() as int),
{
    lemma_be_value_front(bytes);
    let f = bytes[0] as int;
    let n = bytes.len() as int;
    let w = byte_span(n - 1) as int;
    let rest = be_value(bytes.drop_first()) as int;
    if n == 1 {
        assert(f * w == f);
    } else if n == 2 {
        assert(f * w == f * 0x100);
    } else if n == 3 {
        assert(f * w == f * 0x1_0000);
    } else if n == 4 {
        assert(f * w == f * 0x100_0000);
    } else if n == 5 {
        assert(f * w == f * 0x1_0000_0000);
    } else if n == 6 {
        assert(f * w == f * 0x100_0000_0000);
    } else if n == 7 {
        assert(f * w == f * 0x1_0000_0000_0000);
    } else {
        assert(f * w == f * 0x100_0000_0000_0000);
    }
}

/// The leading zero bits of `byte`, at most eight.
pub fn leading_zeros_u8(byte: u8) -> (n: u8)
    ensures
        n == u8_leading_zeros(byte),
        n + 1 == vint_length(byte),
{
    proof {
        axiom_u8_leading_zeros(byte);
        let z: u8 = u8_leading_zeros(byte) as u8;
        let top: u8 = (7 - z) as u8;
        let above: u8 = (8 - z) as u8;
        assert(z <= 8 && (byte == 0 <==> z == 8) && (z < 8 ==> (byte >> top) & 1u8 != 0u8) && byte
            >> above == 0 && (z < 8 ==> top == 7 - z) && above == 8 - z ==> (z == 0 <==> byte
            >= 0x80) && (z == 1 <==> 0x40 <= byte < 0x80) && (z == 2 <==> 0x20 <= byte < 0x40) && (
        z == 3 <==> 0x10 <= byte < 0x20) && (z == 4 <==> 0x08 <= byte < 0x10) && (z == 5 <==> 0x04
            <= byte < 0x08) && (z == 6 <==> 0x02 <= byte < 0x04) && (z == 7 <==> byte == 1))
            by (bit_vector);
    }
    byte.leading_zeros() as u8
}

/// Reads the integer at `pos` of `source`, without moving its read position.
pub fn read_vint(source: &ByteSource, pos: u64) -> (r: VintRead)
    ensures
        r == vint_at(source.bytes(), pos as int),
        r matches VintRead::Value(v) ==> {
            &&& 1 <= v.length <= 8
            &&& pos + v.length <= source.bytes().len() <= u64::MAX
            &&& vint_marker(v.length as int) <= v.value < 2 * vint_marker(v.length as int)
        },
{
    let first: u8 = match source.byte_at(pos) {
        Some(b) => b,
        None => {
            return VintRead::End;
        },
    };
    let length: u8 = leading_zeros_u8(first) + 1;
    if length > 8 {
        return VintRead::NoMarker;
    }
    proof {
        source.lemma_len_fits();
    }
    let total: u64 = source.len();
    if length as u64 > total - pos {
        return VintRead::Truncated;
    }
    let ghost bytes = source.bytes();
    let mut value: u64 = first as u64;
    let mut i: u8 = 1;
    proof {
        let s = bytes.subrange(pos as int, pos + 1);
        assert(s.drop_last() =~= Seq::<u8>::empty());
        assert(be_value(s.drop_last()) == 0);
        assert(s.last() == first);
    }
    while i < length
        invariant
            bytes == source.bytes(),
            1 <= i <= length <= 8,
            pos + length <= bytes.len() <= u64::MAX,
            value == be_value(bytes.subrange(pos as int, pos + i)),
            value < byte_span(i as int),
        decreases length - i,
    {
        let b: u8 = match source.byte_at(pos + i as u64) {
            Some(b) => b,
            None => {
                proof {
                    assert(false);
                }
                0
            },
        };
        let ghost prev = value;
        assert((prev << 8) | (b as u64) == prev * 256 + b) by (bit_vector)
            requires
                prev < 0x100_0000_0000_0000u64,
        ;
        value = (value << 8) | (b as u64);
        proof {
            let s = bytes.subrange(pos as int, pos + i + 1);
            assert(s.drop_last() =~= bytes.subrange(pos as int, pos + i));
            assert(s.last() == b);
        }
        i = i + 1;
    }
    proof {
        let s = bytes.subrange(pos as int, pos + length);
        assert(s[0] == first);
        lemma_vint_marker_range(s);
    }
    VintRead::Value(RawVint { value, length })
}

impl RawVint {
    /// What `read_from` returns for the input `bytes` read at `pos`.
    pub open spec fn outcome(bytes: Seq<u8>, pos: int) -> Result<Option<RawVint>, ParseError> {
        match vint_at(bytes, pos) {
            VintRead::End => Ok(None),
            VintRead::NoMarker => Err(ParseError::NoVINTMarker),
            VintRead::Truncated => Err(ParseError::UnexpectedEOFInVINT),
            VintRead::Value(v) => Ok(Some(v)),
        }
    }

    /// Reads one variable-length integer at the read position.
    ///
    /// `Ok(None)` where the input ends at the read position. On success the
    /// read position stands behind the integer; otherwise it has not moved.
    pub fn read_from(reader: &mut ByteSource) -> (r: Result<Option<RawVint>, ParseError>)
        ensures
            r == Self::outcome(old(reader).bytes(), old(reader).pos() as int),
            final(reader).bytes() == old(reader).bytes(),
            final(reader).pos() == match r {
                Ok(Some(v)) => old(reader).pos() + v.length,
                _ => old(reader).pos() as int,
            },
    {
        let start: u64 = reader.position();
        match read_vint(reader, start) {
            VintRead::End => Ok(None),
            VintRead::NoMarker => Err(ParseError::NoVINTMarker),
            VintRead::Truncated => Err(ParseError::UnexpectedEOFInVINT),
            VintRead::Value(v) => {
                proof {
                    reader.lemma_len_fits();
                }
                reader.seek(start + v.length as u64);
                Ok(Some(v))
            },
        }
    }
}

/// An element identifier: a variable-length integer whose marker bit is part
/// of the value.
#[derive(Debug, Clone, Copy, PartialEq, Eq, Structural)]
pub struct EbmlId {
    pub value: u64,
    /// Between one and eight bytes.
    pub length: u8,
}

/// A payload size: a variable-length integer with its marker bit taken off.
#[derive(Debug, Clone, Copy, PartialEq, Eq, Structural)]
pub struct EbmlSize {
    pub value: u64,
    /// Between one and eight bytes.
    pub length: u8,
}

impl EbmlId {
    /// What `read_from` returns for the input `bytes` read at `pos`.
    pub open spec fn outcome(bytes: Seq<u8>, pos: int) -> Result<EbmlId, EbmlError> {
        match vint_at(bytes, pos) {
            VintRead::End => Err(EbmlError::UnexpectedEof),
            VintRead::NoMarker => Err(EbmlError::InvalidVint),
            VintRead::Truncated => Err(EbmlError::UnexpectedEof),
            VintRead::Value(v) => Ok(EbmlId { value: v.value, length: v.length }),
        }
    }

    /// Reads an identifier at the read position. On success the read
    /// position stands behind it; otherwise it has not moved.
    pub fn read_from(reader: &mut ByteSource) -> (r: Result<EbmlId, EbmlError>)
        ensures
            r == Self::outcome(old(reader).bytes(), old(reader).pos() as int),
            final(reader).bytes() == old(reader).bytes(),
            final(reader).pos() == match r {
                Ok(id) => old(reader).pos() + id.length,
                Err(_) => old(reader).pos() as int,
            },
            r matches Ok(id) ==> 1 <= id.length <= 8 && id_length(id.value as nat) == id.length,
    {
        let start: u64 = reader.position();
        match read_vint(reader, start) {
            VintRead::End => Err(EbmlError::UnexpectedEof),
            VintRead::NoMarker => Err(EbmlError::InvalidVint),
            VintRead::Truncated => Err(EbmlError::UnexpectedEof),
            VintRead::Value(v) => {
                proof {
                    reader.lemma_len_fits();
                }
                reader.seek(start + v.length as u64);
                Ok(EbmlId { value: v.value, length: v.length })
            },
        }
    }
}

impl EbmlSize {
    /// What `read_from` returns for the input `bytes` read at `pos`.
    pub open spec fn outcome(bytes: Seq<u8>, pos: int) -> Result<EbmlSize, EbmlError> {
        match vint_at(bytes, pos) {
            VintRead::End => Err(EbmlError::UnexpectedEof),
            VintRead::NoMarker => Err(EbmlError::InvalidVint),
            VintRead::Truncated => Err(EbmlError::UnexpectedEof),
            VintRead::Value(v) => Ok(
                EbmlSize {
                    value: (v.value - vint_marker(v.length as int)) as u64,
                    length: v.length,
                },
            ),
        }
    }

    /// Reads a size at the read position. On success the read position
    /// stands behind it; otherwise it has not moved.
    pub fn read_from(reader: &mut ByteSource) -> (r: Result<EbmlSize, EbmlError>)
        ensures
            r == Self::outcome(old(reader).bytes(), old(reader).pos() as int),
            final(reader).bytes() == old(reader).bytes(),
            final(reader).pos() == match r {
                Ok(size) => old(reader).pos() + size.length,
                Err(_) => old(reader).pos() as int,
            },
            r matches Ok(size) ==> 1 <= size.length <= 8 && size.value < vint_marker(
                size.length as int,
            ),
    {
        let start: u64 = reader.position();
        match read_vint(reader, start) {
            VintRead::End => Err(EbmlError::UnexpectedEof),
            VintRead::NoMarker => Err(EbmlError::InvalidVint),
            VintRead::Truncated => Err(EbmlError::UnexpectedEof),
            VintRead::Value(v) => {
                proof {
                    reader.lemma_len_fits();
                }
                reader.seek(start + v.length as u64);
                Ok(EbmlSize { value: v.value - marker_of(v.length), length: v.length })
            },
        }
    }
}

/// The `count` low bytes of `value`, the highest first.
pub open spec fn be_bytes(value: nat, count: nat) -> Seq<u8>
    decreases count,
{
    if count == 0 {
        Seq::empty()
    } else {
        be_bytes(value / 256, (count - 1) as nat).push((value % 256) as u8)
    }
}

/// The length of an identifier: the length whose marker bit is the highest
/// set bit of `value`. Zero where `value` is no identifier.
pub open spec fn id_length(value: nat) -> int {
    if 0x80 <= value < 0x100 {
        1
    } else if 0x4000 <= value < 0x8000 {
        2
    } else if 0x20_0000 <= value < 0x40_0000 {
        3
    } else if 0x1000_0000 <= value < 0x2000_0000 {
        4
    } else if 0x08_0000_0000 <= value < 0x10_0000_0000 {
        5
    } else if 0x0400_0000_0000 <= value < 0x0800_0000_0000 {
        6
    } else if 0x02_0000_0000_0000 <= value < 0x04_0000_0000_0000 {
        7
    } else if 0x0100_0000_0000_0000 <= value < 0x0200_0000_0000_0000 {
        8
    } else {
        0
    }
}

/// The length of a size field for `value`: the least length whose marker
/// bit lies above `value`. Zero where eight bytes are not enough.
pub open spec fn size_length(value: nat) -> int {
    if value < 0x80 {
        1
    } else if value < 0x4000 {
        2
    } else if value < 0x20_0000 {
        3
    } else if value < 0x1000_0000 {
        4
    } else if value < 0x08_0000_0000 {
        5
    } else if value < 0x0400_0000_0000 {
        6
    } else if value < 0x02_0000_0000_0000 {
        7
    } else if value < 0x0100_0000_0000_0000 {
        8
    } else {
        0
    }
}

/// `value` with the marker bit of `length` set.
pub open spec fn marked(value: nat, length: int) -> nat {
    if value >= vint_marker(length) {
        value
    } else {
        value + vint_marker(length)
    }
}

/// The bytes of the identifier `value`.
pub open spec fn id_bytes(value: nat) -> Seq<u8> {
    be_bytes(value, id_length(value) as nat)
}

/// The bytes of a size field for `value`.
pub open spec fn size_bytes(value: nat) -> Seq<u8> {
    be_bytes(value + vint_marker(size_length(value)), size_length(value) as nat)
}

/// A number is written with as many bytes as were asked for.
pub proof fn lemma_be_bytes_len(value: nat, count: nat)
    ensures
        be_bytes(value, count).len() == count,
    decreases count,
{
    if count > 0 {
        lemma_be_bytes_len(value / 256, (count - 1) as nat);
    }
}

/// The bytes of a number spell that number.
pub proof fn lemma_be_bytes_value(value: nat, count: nat)
    requires
        count <= 8,
        value < byte_span(count as int),
    ensures
        be_value(be_bytes(value, count)) == value,
    decreases count,
{
    if count > 0 {
        let s = be_bytes(value, count);
        assert(s.drop_last() =~= be_bytes(value / 256, (count - 1) as nat));
        assert(s.last() == (value % 256) as u8);
        lemma_be_bytes_value(value / 256, (count - 1) as nat);
    }
}

/// The first of the bytes of a number is the number without the others.
pub proof fn lemma_be_bytes_first(value: nat, count: nat)
    requires
        1 <= count <= 8,
        value < byte_span(count as int),
    ensures
        be_bytes(value, count).len() == count,
        be_bytes(value, count)[0] == value / byte_span(count - 1),
    decreases count,
{
    lemma_be_bytes_len(value, count);
    let inner = be_bytes(value / 256, (count - 1) as nat);
    lemma_be_bytes_len(value / 256, (count - 1) as nat);
    assert(be_bytes(value, count) == inner.push((value % 256) as u8));
    if count == 1 {
        assert(value / 1 == value);
    } else {
        lemma_be_bytes_first(value / 256, (count - 1) as nat);
        let below = byte_span(count - 2) as int;
        assert(inner[0] == (value as int / 256) / below);
        lemma_div_denominator(value as int, 256, below);
        assert(256 * below == byte_span(count - 1));
        assert((value as int / 256) / below == value as int / (256 * below));
    }
}

/// Where the bytes of a marked number stand in the input, reading finds that
/// number with its length.
pub proof fn lemma_vint_at_encoded(bytes: Seq<u8>, pos: int, value: nat, length: int)
    requires
        1 <= length <= 8,
        vint_marker(length) <= value < 2 * vint_marker(length),
        window(bytes, pos, length) == Some(be_bytes(value, length as nat)),
    ensures
        vint_at(bytes, pos) == VintRead::Value(
            RawVint { value: value as u64, length: length as u8 },
        ),
{
    let enc = be_bytes(value, length as nat);
    lemma_be_bytes_first(value, length as nat);
    lemma_be_bytes_value(value, length as nat);
    assert(bytes[pos] == bytes.subrange(pos, pos + length)[0]);
    let first = enc[0];
    let w = byte_span(length - 1) as int;
    assert(first == value as int / w);
    let v = value as int;
    if length == 1 {
        assert(w == 1 && first == v / 1);
    } else if length == 2 {
        assert(w == 0x100 && 0x40 <= v / 0x100 < 0x80);
    } else if length == 3 {
        assert(w == 0x1_0000 && 0x20 <= v / 0x1_0000 < 0x40);
    } else if length == 4 {
        assert(w == 0x100_0000 && 0x10 <= v / 0x100_0000 < 0x20);
    } else if length == 5 {
        assert(w == 0x1_0000_0000 && 0x08 <= v / 0x1_0000_0000 < 0x10);
    } else if length == 6 {
        assert(w == 0x100_0000_0000 && 0x04 <= v / 0x100_0000_0000 < 0x08);
    } else if length == 7 {
        assert(w == 0x1_0000_0000_0000 && 0x02 <= v / 0x1_0000_0000_0000 < 0x04);
    } else {
        assert(w == 0x100_0000_0000_0000 && 0x01 <= v / 0x100_0000_0000_0000 < 0x02);
    }
    assert(vint_length(first) == length);
}

/// Reading an encoded identifier gives the identifier back.
pub proof fn lemma_id_round_trip(value: u64)
    requires
        id_length(value as nat) > 0,
    ensures
        EbmlId::outcome(id_bytes(value as nat), 0) == Ok::<EbmlId, EbmlError>(
            EbmlId { value, length: id_length(value as nat) as u8 },
        ),
{
    let length = id_length(value as nat);
    lemma_be_bytes_len(value as nat, length as nat);
    assert(id_bytes(value as nat).subrange(0, length) =~= id_bytes(value as nat));
    lemma_vint_at_encoded(id_bytes(value as nat), 0, value as nat, length);
}

/// Reading an encoded size gives the size back, and the encoding is the
/// shortest there is: no shorter field could hold the value.
pub proof fn lemma_size_round_trip(value: u64)
    requires
        size_length(value as nat) > 0,
    ensures
        EbmlSize::outcome(size_bytes(value as nat), 0) == Ok::<EbmlSize, EbmlError>(
            EbmlSize { value, length: size_length(value as nat) as u8 },
        ),
        value < vint_marker(size_length(value as nat)),
        forall|shorter: int| 1 <= shorter < size_length(value as nat) ==> value >= vint_marker(shorter),
{
    let length = size_length(value as nat);
    let raw = value as nat + vint_marker(length);
    lemma_be_bytes_len(raw, length as nat);
    assert(size_bytes(value as nat).subrange(0, length) =~= size_bytes(value as nat));
    lemma_vint_at_encoded(size_bytes(value as nat), 0, raw, length);
}

/// The length of an identifier is what its leading zero bits say: their
/// count modulo eight, plus one.
pub proof fn lemma_id_length_by_leading_zeros(value: u64)
    requires
        id_length(value as nat) > 0,
    ensures
        id_length(value as nat) == (u64_leading_zeros(value) % 8) + 1,
{
    axiom_u64_leading_zeros(value);
    let z: u64 = u64_leading_zeros(value) as u64;
    let top: u64 = (63 - z) as u64;
    let above: u64 = (64 - z) as u64;
    assert(z <= 64 && (z < 64 ==> (value >> top) & 1u64 != 0u64) && value >> above == 0 && (z < 64
        ==> top == 63 - z) && above == 64 - z ==> (0x80 <= value < 0x100 ==> z == 56) && (0x4000
        <= value < 0x8000 ==> z == 49) && (0x20_0000 <= value < 0x40_0000 ==> z == 42) && (
    0x1000_0000 <= value < 0x2000_0000 ==> z == 35) && (0x08_0000_0000 <= value < 0x10_0000_0000
        ==> z == 28) && (0x0400_0000_0000 <= value < 0x0800_0000_0000 ==> z == 21) && (
    0x02_0000_0000_0000 <= value < 0x04_0000_0000_0000 ==> z == 14) && (0x0100_0000_0000_0000
        <= value < 0x0200_0000_0000_0000 ==> z == 7)) by (bit_vector);
}

/// The marker bit of a field of `length` bytes; zero for a length outside
/// `1..=8`.
pub fn marker_of(length: u8) -> (m: u64)
    ensures
        m == vint_marker(length as int),
{
    if length == 1 {
        0x80
    } else if length == 2 {
        0x4000
    } else if length == 3 {
        0x20_0000
    } else if length == 4 {
        0x1000_0000
    } else if length == 5 {
        0x08_0000_0000
    } else if length == 6 {
        0x0400_0000_0000
    } else if length == 7 {
        0x02_0000_0000_0000
    } else if length == 8 {
        0x0100_0000_0000_0000
    } else {
        0
    }
}

/// The byte of `value` that has `index` bytes below it.
fn byte_of(value: u64, index: u8) -> (b: u8)
    requires
        index < 8,
    ensures
        b == (value as nat / byte_span(index as int)) % 256,
{
    assert((value >> 0u64) & 0xff == (value / 0x1) % 256) by (bit_vector);
    assert((value >> 8u64) & 0xff == (value / 0x100) % 256) by (bit_vector);
    assert((value >> 16u64) & 0xff == (value / 0x1_0000) % 256) by (bit_vector);
    assert((value >> 24u64) & 0xff == (value / 0x100_0000) % 256) by (bit_vector);
    assert((value >> 32u64) & 0xff == (value / 0x1_0000_0000) % 256) by (bit_vector);
    assert((value >> 40u64) & 0xff == (value / 0x100_0000_0000) % 256) by (bit_vector);
    assert((value >> 48u64) & 0xff == (value / 0x1_0000_0000_0000) % 256) by (bit_vector);
    assert((value >> 56u64) & 0xff == (value / 0x100_0000_0000_0000) % 256) by (bit_vector);
    let low: u64 = (value >> (8 * index as u64)) & 0xff;
    assert(low < 256) by (bit_vector)
        requires
            low == (value >> (8 * index as u64)) & 0xff,
    ;
    low as u8
}

/// The bytes of `value` as a variable-length integer of `length` bytes, with
/// the marker bit of that length set.
pub fn encode_vint(value: u64, length: u8) -> (out: Vec<u8>)
    requires
        1 <= length <= 8,
        value < 2 * vint_marker(length as int),
    ensures
        out@ == be_bytes(marked(value as nat, length as int), length as nat),
{
    let marker: u64 = marker_of(length);
    let full: u64 = if value >= marker {
        value
    } else {
        value + marker
    };
    let mut out: Vec<u8> = Vec::new();
    let mut i: u8 = 0;
    while i < length
        invariant
            1 <= length <= 8,
            i <= length,
            out@ == be_bytes(full as nat / byte_span(length - i), i as nat),
        decreases length - i,
    {
        let b: u8 = byte_of(full, length - 1 - i);
        proof {
            let upper = full as nat / byte_span(length - i);
            let next = full as nat / byte_span(length - i - 1);
            lemma_div_denominator(full as int, byte_span(length - i - 1) as int, 256);
            assert(byte_span(length - i - 1) * 256 == byte_span(length - i));
            assert(next / 256 == upper);
        }
        out.push(b);
        i = i + 1;
    }
    out
}

/// The length of the identifier `value`, or `None` where it is not one.
pub fn id_length_of(value: u64) -> (r: Option<u8>)
    ensures
        r == (if id_length(value as nat) > 0 {
            Some(id_length(value as nat) as u8)
        } else {
            None
        }),
{
    if 0x80 <= value && value < 0x100 {
        Some(1)
    } else if 0x4000 <= value && value < 0x8000 {
        Some(2)
    } else if 0x20_0000 <= value && value < 0x40_0000 {
        Some(3)
    } else if 0x1000_0000 <= value && value < 0x2000_0000 {
        Some(4)
    } else if 0x08_0000_0000 <= value && value < 0x10_0000_0000 {
        Some(5)
    } else if 0x0400_0000_0000 <= value && value < 0x0800_0000_0000 {
        Some(6)
    } else if 0x02_0000_0000_0000 <= value && value < 0x04_0000_0000_0000 {
        Some(7)
    } else if 0x0100_0000_0000_0000 <= value && value < 0x0200_0000_0000_0000 {
        Some(8)
    } else {
        None
    }
}

/// The length of the shortest size field that holds `value`, or `None`
/// where eight bytes are not enough.
pub fn size_length_of(value: u64) -> (r: Option<u8>)
    ensures
        r == (if size_length(value as nat) > 0 {
            Some(size_length(value as nat) as u8)
        } else {
            None
        }),
{
    if value < 0x80 {
        Some(1)
    } else if value < 0x4000 {
        Some(2)
    } else if value < 0x20_0000 {
        Some(3)
    } else if value < 0x1000_0000 {
        Some(4)
    } else if value < 0x08_0000_0000 {
        Some(5)
    } else if value < 0x0400_0000_0000 {
        Some(6)
    } else if value < 0x02_0000_0000_0000 {
        Some(7)
    } else if value < 0x0100_0000_0000_0000 {
        Some(8)
    } else {
        None
    }
}

/// The bytes of the identifier `value`; `InvalidId` where `value` does not
/// carry the marker bit of a length as its highest bit.
pub fn encode_id(value: u64) -> (r: Result<Vec<u8>, EbmlError>)
    ensures
        match r {
            Ok(out) => id_length(value as nat) > 0 && out@ == id_bytes(value as nat),
            Err(e) => id_length(value as nat) == 0 && e == EbmlError::InvalidId,
        },
{
    match id_length_of(value) {
        Some(length) => Ok(encode_vint(value, length)),
        None => Err(EbmlError::InvalidId),
    }
}

/// The bytes of the shortest size field for `value`; `SizeTooLarge` where
/// `value` needs more than eight bytes.
pub fn encode_size(value: u64) -> (r: Result<Vec<u8>, EbmlError>)
    ensures
        match r {
            Ok(out) => size_length(value as nat) > 0 && out@ == size_bytes(value as nat),
            Err(e) => size_length(value as nat) == 0 && e == EbmlError::SizeTooLarge,
        },
{
    match size_length_of(value) {
        Some(length) => Ok(encode_vint(value, length)),
        None => Err(EbmlError::SizeTooLarge),
    }
}

} // verus!
