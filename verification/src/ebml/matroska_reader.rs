//! The flat reader: it lists the elements at the top of a document and, for
//! the EBML header, the elements one level below.

use vstd::prelude::*;
use crate::ebml::diagnostic::Diagnostic;
use crate::ebml::element::{
    element_views, lemma_element_views_push, Element, ElementView, NodeMeta, ParsedElement,
    ParsedView,
};
use crate::ebml::element_header::ElementHeader;
use crate::ebml::error::{IoErrorKind, ParseError};
use crate::ebml::matroska_ids::EBML_HEADER_ID;
use crate::ebml::primitives::{
    all_printable, ascii_text, read_string, read_unsigned_integer, unsigned_at,
};
use crate::ebml::source::{window, ByteSource};

verus! {

/// A reader over a byte source that keeps the notices of what it skipped.
pub struct MatroskaReader {
    reader: ByteSource,
    diagnostics: Vec<Diagnostic>,
}

/// The outcome of a scan and the position at which it stopped.
pub type Scan = (Result<Seq<ElementView>, ParseError>, int);

/// `rest` with the elements `head` in front of what it found.
pub open spec fn prepend(head: Seq<ElementView>, rest: Scan) -> Scan {
    match rest.0 {
        Ok(tail) => (Ok(head + tail), rest.1),
        Err(e) => (Err(e), rest.1),
    }
}

/// The element whose header `header` stands at `pos`, its payload not looked
/// into.
pub open spec fn skipped(pos: int, header: ElementHeader) -> ElementView {
    ElementView {
        meta: NodeMeta {
            header_start: pos as u64,
            data_start: (pos + header.header_size) as u64,
            id: header.id.value,
            data_size: header.data_size.value,
        },
        parsed: ParsedView::Unkown,
    }
}

/// The elements between `pos` and `end`, one after the other, none looked
/// into.
///
/// They have to fill the range exactly. The input may not end before `end`
/// (`UnexpectedEOF`), and no element may reach past `end`
/// (`ElementOverrun`). The scan stops at `end`, or at the element that could
/// not be read.
pub open spec fn children_at(bytes: Seq<u8>, pos: int, end: int) -> Scan
    decreases end - pos,
{
    if pos >= end {
        (Ok(Seq::empty()), pos)
    } else {
        match ElementHeader::outcome(bytes, pos) {
            Err(e) => (Err(e), pos),
            Ok(None) => (Err(ParseError::UnexpectedEOF), pos),
            Ok(Some(header)) => {
                let next = pos + header.header_size + header.data_size.value;
                if next > bytes.len() {
                    (Err(ParseError::UnexpectedEOF), pos)
                } else if next > end {
                    (Err(ParseError::ElementOverrun), pos)
                } else {
                    prepend(seq![skipped(pos, header)], children_at(bytes, next, end))
                }
            },
        }
    }
}

/// The elements from `pos` to the end of the input. The payload of the EBML
/// header is scanned for the elements that it holds; every other payload is
/// stepped over.
///
/// Every payload has to lie within the input (`UnexpectedEOF`). The scan
/// stops at the end of the input, or at the element that could not be read.
pub open spec fn elements_at(bytes: Seq<u8>, pos: int) -> Scan
    decreases bytes.len() - pos,
{
    match ElementHeader::outcome(bytes, pos) {
        Err(e) => (Err(e), pos),
        Ok(None) => (Ok(Seq::empty()), pos),
        Ok(Some(header)) => {
            let data_start = pos + header.header_size;
            let next = data_start + header.data_size.value;
            if next > bytes.len() {
                (Err(ParseError::UnexpectedEOF), pos)
            } else if header.id.value == EBML_HEADER_ID {
                match children_at(bytes, data_start, next).0 {
                    Err(e) => (Err(e), children_at(bytes, data_start, next).1),
                    Ok(children) => prepend(
                        seq![
                            ElementView {
                                meta: skipped(pos, header).meta,
                                parsed: ParsedView::EBMLHeader(children),
                            },
                        ],
                        elements_at(bytes, next),
                    ),
                }
            } else {
                prepend(seq![skipped(pos, header)], elements_at(bytes, next))
            }
        },
    }
}

/// A scan that succeeds from at or before `end` stops at `end`.
pub proof fn lemma_children_stop(bytes: Seq<u8>, pos: int, end: int)
    requires
        pos <= end,
        children_at(bytes, pos, end).0 is Ok,
    ensures
        children_at(bytes, pos, end).1 == end,
    decreases end - pos,
{
    if pos < end {
        let header = ElementHeader::outcome(bytes, pos)->Ok_0->Some_0;
        lemma_children_stop(bytes, pos + header.header_size + header.data_size.value, end);
    }
}

impl MatroskaReader {
    /// The bytes that the reader reads.
    pub closed spec fn bytes(&self) -> Seq<u8> {
        self.reader.bytes()
    }

    /// The read position.
    pub closed spec fn pos(&self) -> u64 {
        self.reader.pos()
    }

    /// The notices so far, the oldest first.
    pub closed spec fn notices(&self) -> Seq<Diagnostic> {
        self.diagnostics@
    }

    /// A reader over `reader`, at the position where `reader` stands.
    pub fn new(reader: ByteSource) -> (r: Self)
        ensures
            r.bytes() == reader.bytes(),
            r.pos() == reader.pos(),
            r.notices() == Seq::<Diagnostic>::empty(),
    {
        MatroskaReader { reader, diagnostics: Vec::new() }
    }

    /// The read position.
    pub fn position(&self) -> (p: u64)
        ensures
            p == self.pos(),
    {
        self.reader.position()
    }

    /// The number of bytes that the reader reads from.
    pub fn len(&self) -> (n: u64)
        ensures
            n == self.bytes().len(),
    {
        self.reader.len()
    }

    /// Moves the read position to `pos`, which may lie past the end.
    pub fn seek(&mut self, pos: u64)
        ensures
            final(self).bytes() == old(self).bytes(),
            final(self).notices() == old(self).notices(),
            final(self).pos() == pos,
    {
        self.reader.seek(pos);
    }

    /// The notices so far, the oldest first.
    pub fn diagnostics(&self) -> (d: &Vec<Diagnostic>)
        ensures
            d@ == self.notices(),
    {
        &self.diagnostics
    }

    /// Records a notice.
    pub fn warn(&mut self, notice: Diagnostic)
        ensures
            final(self).bytes() == old(self).bytes(),
            final(self).pos() == old(self).pos(),
            final(self).notices() == old(self).notices().push(notice),
    {
        self.diagnostics.push(notice);
    }

    /// Reads an element header at the read position and returns it with the
    /// position at which it starts.
    ///
    /// `Ok(None)` where the input ends at the read position. On success the
    /// read position stands behind the header; otherwise it has not moved.
    pub fn read_header(&mut self) -> (r: Result<Option<(ElementHeader, u64)>, ParseError>)
        ensures
            final(self).bytes() == old(self).bytes(),
            final(self).notices() == old(self).notices(),
            match r {
                Ok(Some((header, start))) => {
                    &&& ElementHeader::outcome(old(self).bytes(), old(self).pos() as int) == Ok::<
                        Option<ElementHeader>,
                        ParseError,
                    >(Some(header))
                    &&& start == old(self).pos()
                    &&& final(self).pos() == start + header.header_size
                    &&& start + header.header_size <= old(self).bytes().len()
                    &&& 2 <= header.header_size <= 12
                    &&& header.data_size.value < 0x0100_0000_0000_0000
                },
                Ok(None) => {
                    &&& ElementHeader::outcome(old(self).bytes(), old(self).pos() as int) == Ok::<
                        Option<ElementHeader>,
                        ParseError,
                    >(None)
                    &&& final(self).pos() == old(self).pos()
                },
                Err(e) => {
                    &&& ElementHeader::outcome(old(self).bytes(), old(self).pos() as int) == Err::<
                        Option<ElementHeader>,
                        ParseError,
                    >(e)
                    &&& final(self).pos() == old(self).pos()
                },
            },
    {
        let header_start: u64 = self.reader.position();
        match ElementHeader::read_from(&mut self.reader) {
            Ok(Some(header)) => Ok(Some((header, header_start))),
            Ok(None) => Ok(None),
            Err(e) => Err(e),
        }
    }

    /// Steps over `size` bytes, which have to be there: where the input ends
    /// before them the error is `UnexpectedEOF`, and the read position has
    /// not moved.
    pub fn skip_payload(&mut self, size: u64) -> (r: Result<(), ParseError>)
        ensures
            final(self).bytes() == old(self).bytes(),
            final(self).notices() == old(self).notices(),
            match r {
                Ok(_) => {
                    &&& old(self).pos() + size <= old(self).bytes().len()
                    &&& final(self).pos() == old(self).pos() + size
                },
                Err(e) => {
                    &&& old(self).pos() + size > old(self).bytes().len()
                    &&& final(self).pos() == old(self).pos()
                    &&& e == ParseError::UnexpectedEOF
                },
            },
    {
        let pos: u64 = self.reader.position();
        let len: u64 = self.reader.len();
        if pos > len || size > len - pos {
            return Err(ParseError::UnexpectedEOF);
        }
        self.reader.seek(pos + size);
        Ok(())
    }

    /// Reads `size` bytes at the read position as a big-endian unsigned
    /// integer, as `read_unsigned_integer` of the primitives does.
    pub fn read_unsigned_integer(&mut self, size: u64) -> (r: Result<u64, ParseError>)
        ensures
            r == unsigned_at(old(self).bytes(), old(self).pos() as int, size as int),
            final(self).bytes() == old(self).bytes(),
            final(self).notices() == old(self).notices(),
            final(self).pos() == (if r is Ok {
                old(self).pos() + size
            } else {
                old(self).pos() as int
            }),
    {
        read_unsigned_integer(&mut self.reader, size)
    }

    /// Reads `size` bytes at the read position as text, as `read_string` of
    /// the primitives does.
    pub fn read_string(&mut self, size: u64) -> (r: Result<String, ParseError>)
        ensures
            final(self).bytes() == old(self).bytes(),
            final(self).notices() == old(self).notices(),
            match window(old(self).bytes(), old(self).pos() as int, size as int) {
                None => r matches Err(ParseError::Io(IoErrorKind::UnexpectedEof)),
                Some(payload) => if all_printable(payload) {
                    r matches Ok(text) && text@ == ascii_text(payload)
                } else {
                    r matches Err(ParseError::InvalidString)
                },
            },
            final(self).pos() == (if r is Ok {
                old(self).pos() + size
            } else {
                old(self).pos() as int
            }),
    {
        read_string(&mut self.reader, size)
    }

    /// Lists the elements from the read position to the end of the input.
    ///
    /// The result is what [`elements_at`] describes. The read position ends
    /// where the scan stopped.
    pub fn parse_elements(&mut self) -> (r: Result<Vec<Element>, ParseError>)
        ensures
            final(self).bytes() == old(self).bytes(),
            final(self).notices() == old(self).notices(),
            final(self).pos() == elements_at(old(self).bytes(), old(self).pos() as int).1,
            match r {
                Ok(found) => elements_at(old(self).bytes(), old(self).pos() as int).0 == Ok::<
                    Seq<ElementView>,
                    ParseError,
                >(element_views(found@)),
                Err(e) => elements_at(old(self).bytes(), old(self).pos() as int).0 == Err::<
                    Seq<ElementView>,
                    ParseError,
                >(e),
            },
    {
        let mut found: Vec<Element> = Vec::new();
        let ghost bytes = self.bytes();
        let ghost origin = self.pos() as int;
        assert(element_views(found@) =~= Seq::<ElementView>::empty());
        loop
            invariant
                self.bytes() == bytes,
                self.notices() == old(self).notices(),
                bytes == old(self).bytes(),
                origin == old(self).pos(),
                elements_at(bytes, origin) == prepend(
                    element_views(found@),
                    elements_at(bytes, self.pos() as int),
                ),
            decreases bytes.len() - self.pos(),
        {
            let ghost cur = self.pos() as int;
            let ghost before = element_views(found@);
            let (header, header_start) = match self.read_header() {
                Ok(Some(pair)) => pair,
                Ok(None) => {
                    assert(before + Seq::<ElementView>::empty() =~= before);
                    return Ok(found);
                },
                Err(e) => {
                    return Err(e);
                },
            };
            let data_start: u64 = header_start + header.header_size as u64;
            let meta = NodeMeta {
                id: header.id.value,
                header_start,
                data_start,
                data_size: header.data_size.value,
            };
            let len: u64 = self.reader.len();
            if meta.data_size > len - data_start {
                self.reader.seek(header_start);
                return Err(ParseError::UnexpectedEOF);
            }
            let ghost next = data_start + meta.data_size;
            let parsed = if meta.id == EBML_HEADER_ID {
                match parse_ebml_header_children(self, &meta) {
                    Ok(children) => {
                        proof {
                            lemma_children_stop(bytes, data_start as int, next);
                        }
                        ParsedElement::EBMLHeader(children)
                    },
                    Err(e) => {
                        return Err(e);
                    },
                }
            } else {
                match self.skip_payload(meta.data_size) {
                    Ok(_) => ParsedElement::Unkown,
                    Err(e) => {
                        return Err(e);
                    },
                }
            };
            let element = Element { meta, parsed };
            proof {
                let rest = elements_at(bytes, next);
                assert(elements_at(bytes, cur) == prepend(seq![element@], rest)) by {
                    assert(element@.parsed == element.parsed@);
                }
                lemma_element_views_push(found@, element);
                assert(before.push(element@) =~= before + seq![element@]);
                match rest.0 {
                    Ok(tail) => {
                        assert((before + seq![element@]) + tail =~= before + (seq![element@]
                            + tail));
                    },
                    Err(_) => {},
                }
            }
            found.push(element);
        }
    }
}

/// Lists the elements from the read position to the end of the payload that
/// `meta` describes, none of them looked into.
///
/// The result is what [`children_at`] describes. The read position ends where
/// the scan stopped.
pub fn parse_ebml_header_children(reader: &mut MatroskaReader, meta: &NodeMeta) -> (r: Result<
    Vec<Element>,
    ParseError,
>)
    ensures
        final(reader).bytes() == old(reader).bytes(),
        final(reader).notices() == old(reader).notices(),
        final(reader).pos() == children_at(
            old(reader).bytes(),
            old(reader).pos() as int,
            meta.data_start + meta.data_size,
        ).1,
        match r {
            Ok(children) => children_at(
                old(reader).bytes(),
                old(reader).pos() as int,
                meta.data_start + meta.data_size,
            ).0 == Ok::<Seq<ElementView>, ParseError>(element_views(children@)),
            Err(e) => children_at(
                old(reader).bytes(),
                old(reader).pos() as int,
                meta.data_start + meta.data_size,
            ).0 == Err::<Seq<ElementView>, ParseError>(e),
        },
{
    let end: Option<u64> = meta.data_start.checked_add(meta.data_size);
    let mut children: Vec<Element> = Vec::new();
    let ghost bytes = reader.bytes();
    let ghost origin = reader.pos() as int;
    let ghost limit = meta.data_start + meta.data_size;
    assert(element_views(children@) =~= Seq::<ElementView>::empty());
    loop
        invariant
            reader.bytes() == bytes,
            reader.notices() == old(reader).notices(),
            bytes == old(reader).bytes(),
            origin == old(reader).pos(),
            limit == meta.data_start + meta.data_size,
            end == (if limit <= u64::MAX {
                Some(limit as u64)
            } else {
                None::<u64>
            }),
            children_at(bytes, origin, limit) == prepend(
                element_views(children@),
                children_at(bytes, reader.pos() as int, limit),
            ),
        decreases bytes.len() - reader.pos(),
    {
        let ghost cur = reader.pos() as int;
        let ghost before = element_views(children@);
        let pos: u64 = reader.position();
        let done: bool = match end {
            Some(e) => pos >= e,
            None => false,
        };
        if done {
            assert(before + Seq::<ElementView>::empty() =~= before);
            return Ok(children);
        }
        let (header, header_start) = match reader.read_header() {
            Ok(Some(pair)) => pair,
            Ok(None) => {
                return Err(ParseError::UnexpectedEOF);
            },
            Err(e) => {
                return Err(e);
            },
        };
        let data_start: u64 = header_start + header.header_size as u64;
        let child_meta = NodeMeta {
            id: header.id.value,
            header_start,
            data_start,
            data_size: header.data_size.value,
        };
        let len: u64 = reader.reader.len();
        if child_meta.data_size > len - data_start {
            reader.reader.seek(header_start);
            return Err(ParseError::UnexpectedEOF);
        }
        let next: u64 = data_start + child_meta.data_size;
        let overrun: bool = match end {
            Some(e) => next > e,
            None => false,
        };
        if overrun {
            reader.reader.seek(header_start);
            return Err(ParseError::ElementOverrun);
        }
        reader.reader.seek(next);
        let child = Element { meta: child_meta, parsed: ParsedElement::Unkown };
        proof {
            let rest = children_at(bytes, next as int, limit);
            assert(children_at(bytes, cur, limit) == prepend(seq![child@], rest));
            lemma_element_views_push(children@, child);
            assert(before.push(child@) =~= before + seq![child@]);
            match rest.0 {
                Ok(tail) => {
                    assert((before + seq![child@]) + tail =~= before + (seq![child@] + tail));
                },
                Err(_) => {},
            }
        }
        children.push(child);
    }
}

} // verus!
