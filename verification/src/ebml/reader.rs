//! The tree reader: it decodes a range of the input into a tree of elements,
//! each with the ranges of its header and of its payload.
//!
//! Whether an element holds further elements is for a schema to say. The
//! payload of a container is read as a sequence of elements that has to fill
//! it exactly; the payload of any other element is located and not read.

use vstd::prelude::*;
use crate::ebml::error::{EbmlError, IoErrorKind};
use crate::ebml::source::{window, ByteSource};
use crate::ebml::vint::{EbmlId, EbmlSize};

verus! {

/// What a tree reader has to know of a format: which identifiers name
/// containers.
pub trait EbmlSchema {
    /// True where elements with the identifier `id` hold elements. A schema
    /// says here what its `is_master` computes; one that says nothing calls
    /// no element a container.
    open spec fn master(id: u64) -> bool {
        false
    }

    /// True where elements with the identifier `id` hold elements.
    fn is_master(id: u64) -> (b: bool)
        ensures
            b == Self::master(id),
    ;
}

/// A contiguous part of the input: where it starts and how long it is.
#[derive(Debug, Clone, Copy, PartialEq, Eq, Structural)]
pub struct ByteRange {
    pub start: u64,
    pub length: u64,
}

/// An element of the tree: its identifier, where its header and its payload
/// stand, and, for a container, the elements that the payload holds.
#[derive(Debug)]
pub struct ParsedElement {
    pub id: u64,
    pub header: ByteRange,
    pub data: ByteRange,
    pub children: Option<Vec<ParsedElement>>,
}

/// The mathematical value of a [`ParsedElement`].
pub struct ElementTree {
    pub id: u64,
    pub header: ByteRange,
    pub data: ByteRange,
    pub children: Option<Seq<ElementTree>>,
}

/// The mathematical value of `element`.
pub open spec fn tree_of(element: ParsedElement) -> ElementTree
    decreases element, 0nat,
{
    ElementTree {
        id: element.id,
        header: element.header,
        data: element.data,
        children: match element.children {
            Some(children) => Some(trees_to(children@, children@.len())),
            None => None,
        },
    }
}

/// The mathematical values of the first `count` of `items`.
pub open spec fn trees_to(items: Seq<ParsedElement>, count: nat) -> Seq<ElementTree>
    decreases items, count,
{
    if count == 0 || count > items.len() {
        Seq::empty()
    } else {
        trees_to(items, (count - 1) as nat).push(tree_of(items[count - 1]))
    }
}

/// The mathematical values of a list of elements.
pub open spec fn trees_of(items: Seq<ParsedElement>) -> Seq<ElementTree> {
    trees_to(items, items.len())
}

impl View for ParsedElement {
    type V = ElementTree;

    open spec fn view(&self) -> ElementTree {
        tree_of(*self)
    }
}

/// The values of a list are the values of its items, one for one.
pub proof fn lemma_trees_to(items: Seq<ParsedElement>, count: nat)
    requires
        count <= items.len(),
    ensures
        trees_to(items, count).len() == count,
        forall|i: int| 0 <= i < count ==> #[trigger] trees_to(items, count)[i] == items[i]@,
    decreases count,
{
    if count > 0 {
        lemma_trees_to(items, (count - 1) as nat);
    }
}

/// The values of a list are the values of its items, one for one.
pub proof fn lemma_trees_of(items: Seq<ParsedElement>)
    ensures
        trees_of(items).len() == items.len(),
        forall|i: int| 0 <= i < items.len() ==> #[trigger] trees_of(items)[i] == items[i]@,
{
    lemma_trees_to(items, items.len());
}

/// The values of a list with one more item.
pub proof fn lemma_trees_push(items: Seq<ParsedElement>, last: ParsedElement)
    ensures
        trees_of(items.push(last)) == trees_of(items).push(last@),
{
    lemma_trees_of(items);
    lemma_trees_of(items.push(last));
    assert(trees_of(items.push(last)) =~= trees_of(items).push(last@));
}

impl Clone for ParsedElement {
    /// A copy with the same value.
    fn clone(&self) -> (res: Self)
        ensures
            res@ == self@,
        decreases self,
    {
        let children: Option<Vec<ParsedElement>> = match &self.children {
            None => None,
            Some(items) => {
                let mut copy: Vec<ParsedElement> = Vec::new();
                let mut i: usize = 0;
                while i < items.len()
                    invariant
                        self.children == Some(*items),
                        i <= items@.len(),
                        copy@.len() == i,
                        forall|k: int| 0 <= k < i ==> (#[trigger] copy@[k])@ == items@[k]@,
                    decreases items@.len() - i,
                {
                    proof {
                        assert(decreases_to!(self => self.children));
                        assert(decreases_to!(self.children => self.children->Some_0));
                        assert(decreases_to!(self.children->Some_0 => self.children->Some_0[i as int]));
                    }
                    let child: ParsedElement = items[i].clone();
                    copy.push(child);
                    i = i + 1;
                }
                proof {
                    lemma_trees_of(copy@);
                    lemma_trees_of(items@);
                    assert(trees_of(copy@) =~= trees_of(items@));
                }
                Some(copy)
            },
        };
        ParsedElement { id: self.id, header: self.header, data: self.data, children }
    }
}

/// The header of the element at `pos`, held against the input and against
/// `limit`, the end of the payload that holds the element.
///
/// The identifier and the size have to be there in full (`UnexpectedEof`)
/// and well formed (`InvalidVint`). The payload that the size declares has to
/// lie within the input (`UnexpectedEof`) and must not reach past `limit`
/// (`ElementOverrun`).
pub open spec fn header_at(bytes: Seq<u8>, pos: int, limit: int) -> Result<
    (EbmlId, EbmlSize),
    EbmlError,
> {
    match EbmlId::outcome(bytes, pos) {
        Err(e) => Err(e),
        Ok(id) => match EbmlSize::outcome(bytes, pos + id.length) {
            Err(e) => Err(e),
            Ok(size) => {
                let end = pos + id.length + size.length + size.value;
                if end > bytes.len() {
                    Err(EbmlError::UnexpectedEof)
                } else if end > limit {
                    Err(EbmlError::ElementOverrun)
                } else {
                    Ok((id, size))
                }
            },
        },
    }
}

/// The element at `pos` whose header is `id` and `size`, with the given
/// children.
pub open spec fn node(pos: int, id: EbmlId, size: EbmlSize, children: Option<Seq<ElementTree>>)
    -> ElementTree {
    ElementTree {
        id: id.value,
        header: ByteRange { start: pos as u64, length: (id.length + size.length) as u64 },
        data: ByteRange { start: (pos + id.length + size.length) as u64, length: size.value },
        children,
    }
}

/// The element at `pos`, which may reach up to `limit`.
///
/// Its header is what [`header_at`] finds. Where the schema `S` calls its
/// identifier a container, its children are the elements that fill its
/// payload; otherwise it has none.
pub open spec fn element_at<S: EbmlSchema>(bytes: Seq<u8>, pos: int, limit: int) -> Result<
    ElementTree,
    EbmlError,
>
    decreases limit - pos, 0nat,
{
    match header_at(bytes, pos, limit) {
        Err(e) => Err(e),
        Ok((id, size)) => {
            let data_start = pos + id.length + size.length;
            if S::master(id.value) {
                match elements_at::<S>(bytes, data_start, data_start + size.value) {
                    Err(e) => Err(e),
                    Ok(children) => Ok(node(pos, id, size, Some(children))),
                }
            } else {
                Ok(node(pos, id, size, None))
            }
        },
    }
}

/// The elements that fill the input from `pos` to `end`, in order.
///
/// There is none where `pos` has reached `end`. Otherwise an element starts
/// at `pos`, and the others follow behind its payload.
pub open spec fn elements_at<S: EbmlSchema>(bytes: Seq<u8>, pos: int, end: int) -> Result<
    Seq<ElementTree>,
    EbmlError,
>
    decreases end - pos, 1nat,
{
    if pos >= end {
        Ok(Seq::empty())
    } else {
        match header_at(bytes, pos, end) {
            Err(e) => Err(e),
            Ok((id, size)) => match element_at::<S>(bytes, pos, end) {
                Err(e) => Err(e),
                Ok(first) => match elements_at::<S>(
                    bytes,
                    pos + id.length + size.length + size.value,
                    end,
                ) {
                    Err(e) => Err(e),
                    Ok(rest) => Ok(seq![first] + rest),
                },
            },
        }
    }
}

/// The payload of `tree` starts where its header ends, and where `tree` is
/// a container its children fill its payload: the first starts where the
/// payload starts, each next one where the one before ends, and the last
/// ends where the payload ends. The same holds of every child.
pub open spec fn contiguous(tree: ElementTree) -> bool
    decreases tree,
{
    &&& tree.data.start == tree.header.start + tree.header.length
    &&& match tree.children {
        None => true,
        Some(children) => tiles(
            children,
            tree.data.start as int,
            tree.data.start + tree.data.length,
        ),
    }
}

/// The elements `items` fill the range from `pos` to `end` in order, without
/// gap or overlap, and each is contiguous in itself.
pub open spec fn tiles(items: Seq<ElementTree>, pos: int, end: int) -> bool
    decreases items,
{
    if items.len() == 0 {
        pos == end
    } else {
        &&& items[0].header.start == pos
        &&& contiguous(items[0])
        &&& tiles(items.drop_first(), items[0].data.start + items[0].data.length, end)
    }
}

/// An element that was read is contiguous: it starts at the position where
/// it was read, its payload follows its header, it ends within the limit
/// and within the input, and its children fill its payload.
pub proof fn lemma_element_is_contiguous<S: EbmlSchema>(bytes: Seq<u8>, pos: int, limit: int)
    requires
        0 <= pos,
        bytes.len() <= u64::MAX,
        element_at::<S>(bytes, pos, limit) is Ok,
    ensures
        contiguous(element_at::<S>(bytes, pos, limit)->Ok_0),
        element_at::<S>(bytes, pos, limit)->Ok_0.header.start == pos,
        header_at(bytes, pos, limit) matches Ok((id, size)) && ({
            let tree = element_at::<S>(bytes, pos, limit)->Ok_0;
            &&& tree.header.length == id.length + size.length
            &&& 2 <= tree.header.length <= 16
            &&& tree.data.length == size.value
            &&& tree.data.start + tree.data.length == pos + id.length + size.length + size.value
            &&& tree.data.start + tree.data.length <= limit
            &&& tree.data.start + tree.data.length <= bytes.len()
        }),
    decreases limit - pos, 0nat,
{
    let (id, size) = header_at(bytes, pos, limit)->Ok_0;
    let data_start = pos + id.length + size.length;
    if S::master(id.value) {
        lemma_elements_tile::<S>(bytes, data_start, data_start + size.value);
    }
}

/// Elements that were read one after the other fill the range that they
/// were read from.
pub proof fn lemma_elements_tile<S: EbmlSchema>(bytes: Seq<u8>, pos: int, end: int)
    requires
        0 <= pos <= end,
        bytes.len() <= u64::MAX,
        elements_at::<S>(bytes, pos, end) is Ok,
    ensures
        tiles(elements_at::<S>(bytes, pos, end)->Ok_0, pos, end),
    decreases end - pos, 1nat,
{
    if pos < end {
        let (id, size) = header_at(bytes, pos, end)->Ok_0;
        let first = element_at::<S>(bytes, pos, end)->Ok_0;
        let next = pos + id.length + size.length + size.value;
        let rest = elements_at::<S>(bytes, next, end)->Ok_0;
        lemma_element_is_contiguous::<S>(bytes, pos, end);
        lemma_elements_tile::<S>(bytes, next, end);
        let all = seq![first] + rest;
        assert(all.drop_first() =~= rest);
        assert(all[0] == first);
    }
}

/// A payload that the input does not hold in full is exhaustion: where the
/// header at `pos` can be read and declares more bytes than are left, there
/// is no element at `pos`, whatever the schema and the limit, and the error
/// is `UnexpectedEof`.
pub proof fn lemma_truncated_payload_is_exhaustion<S: EbmlSchema>(
    bytes: Seq<u8>,
    pos: int,
    limit: int,
)
    requires
        EbmlId::outcome(bytes, pos) is Ok,
        EbmlSize::outcome(bytes, pos + EbmlId::outcome(bytes, pos)->Ok_0.length) is Ok,
        pos + EbmlId::outcome(bytes, pos)->Ok_0.length + EbmlSize::outcome(
            bytes,
            pos + EbmlId::outcome(bytes, pos)->Ok_0.length,
        )->Ok_0.length + EbmlSize::outcome(
            bytes,
            pos + EbmlId::outcome(bytes, pos)->Ok_0.length,
        )->Ok_0.value > bytes.len(),
    ensures
        element_at::<S>(bytes, pos, limit) == Err::<ElementTree, EbmlError>(
            EbmlError::UnexpectedEof,
        ),
        pos < limit ==> elements_at::<S>(bytes, pos, limit) == Err::<Seq<ElementTree>, EbmlError>(
            EbmlError::UnexpectedEof,
        ),
{
}

/// The end of the input is a clean end: from there on there are no elements
/// and no error.
pub proof fn lemma_end_of_input_is_clean<S: EbmlSchema>(bytes: Seq<u8>)
    ensures
        elements_at::<S>(bytes, bytes.len() as int, bytes.len() as int) == Ok::<
            Seq<ElementTree>,
            EbmlError,
        >(Seq::empty()),
{
}

/// An input that ends where an element ends is read to its end: where the
/// elements from `next` on are `rest`, and an element is read at `pos` that
/// ends at `next`, the elements from `pos` on are that element and `rest`.
pub proof fn lemma_elements_follow<S: EbmlSchema>(bytes: Seq<u8>, pos: int, next: int, end: int)
    requires
        0 <= pos < end,
        bytes.len() <= u64::MAX,
        element_at::<S>(bytes, pos, end) is Ok,
        next == element_at::<S>(bytes, pos, end)->Ok_0.data.start + element_at::<S>(
            bytes,
            pos,
            end,
        )->Ok_0.data.length,
        elements_at::<S>(bytes, next, end) is Ok,
    ensures
        elements_at::<S>(bytes, pos, end) == Ok::<Seq<ElementTree>, EbmlError>(
            seq![element_at::<S>(bytes, pos, end)->Ok_0] + elements_at::<S>(bytes, next, end)->Ok_0,
        ),
{
    lemma_element_is_contiguous::<S>(bytes, pos, end);
}

/// `rest` with the elements `head` in front of what it found.
pub open spec fn after(head: Seq<ElementTree>, rest: Result<Seq<ElementTree>, EbmlError>) -> Result<
    Seq<ElementTree>,
    EbmlError,
> {
    match rest {
        Ok(tail) => Ok(head + tail),
        Err(e) => Err(e),
    }
}

/// A reader over a byte source.
pub struct EbmlReader {
    reader: ByteSource,
}

impl EbmlReader {
    /// The bytes that the reader reads.
    pub closed spec fn bytes(&self) -> Seq<u8> {
        self.reader.bytes()
    }

    /// The read position.
    pub closed spec fn pos(&self) -> u64 {
        self.reader.pos()
    }

    /// A reader over `reader`, at the position where `reader` stands.
    pub fn new(reader: ByteSource) -> (r: Self)
        ensures
            r.bytes() == reader.bytes(),
            r.pos() == reader.pos(),
    {
        EbmlReader { reader }
    }

    /// Reads an identifier at the read position. On success the read
    /// position stands behind it; otherwise it has not moved.
    pub fn read_id(&mut self) -> (r: Result<EbmlId, EbmlError>)
        ensures
            r == EbmlId::outcome(old(self).bytes(), old(self).pos() as int),
            final(self).bytes() == old(self).bytes(),
            final(self).pos() == match r {
                Ok(id) => old(self).pos() + id.length,
                Err(_) => old(self).pos() as int,
            },
    {
        EbmlId::read_from(&mut self.reader)
    }

    /// Reads a size at the read position. On success the read position
    /// stands behind it; otherwise it has not moved.
    pub fn read_size(&mut self) -> (r: Result<EbmlSize, EbmlError>)
        ensures
            r == EbmlSize::outcome(old(self).bytes(), old(self).pos() as int),
            final(self).bytes() == old(self).bytes(),
            final(self).pos() == match r {
                Ok(size) => old(self).pos() + size.length,
                Err(_) => old(self).pos() as int,
            },
    {
        EbmlSize::read_from(&mut self.reader)
    }

    /// The read position.
    pub fn position(&self) -> (p: u64)
        ensures
            p == self.pos(),
    {
        self.reader.position()
    }

    /// The number of bytes that the reader reads from.
    pub fn len(&self) -> (n: u64)
        ensures
            n == self.bytes().len(),
    {
        self.reader.len()
    }

    /// Moves the read position to `pos`, which may lie past the end.
    pub fn seek(&mut self, pos: u64)
        ensures
            final(self).bytes() == old(self).bytes(),
            final(self).pos() == pos,
    {
        self.reader.seek(pos);
    }

    /// True where the input ends at or before the read position.
    pub fn at_eof(&self) -> (b: bool)
        ensures
            b == (self.pos() >= self.bytes().len()),
    {
        self.reader.at_end()
    }

    /// A copy of the bytes of `range`, with the read position left behind
    /// them.
    ///
    /// Where the input does not hold the whole range the error is
    /// `Io(UnexpectedEof)`, or `InvalidVint` for a length that the machine
    /// cannot address; the read position then stands at the start of the
    /// range.
    pub fn read_range(&mut self, range: &ByteRange) -> (r: Result<Vec<u8>, EbmlError>)
        ensures
            final(self).bytes() == old(self).bytes(),
            match r {
                Ok(payload) => {
                    &&& window(old(self).bytes(), range.start as int, range.length as int) == Some(
                        payload@,
                    )
                    &&& final(self).pos() == range.start + range.length
                },
                Err(e) => {
                    &&& window(old(self).bytes(), range.start as int, range.length as int) is None
                    &&& final(self).pos() == range.start
                    &&& e == (if range.length > usize::MAX {
                        EbmlError::InvalidVint
                    } else {
                        EbmlError::Io(IoErrorKind::UnexpectedEof)
                    })
                },
            },
    {
        self.reader.seek(range.start);
        if range.length > usize::MAX as u64 {
            proof {
                self.reader.lemma_len_fits();
            }
            return Err(EbmlError::InvalidVint);
        }
        match self.reader.read_exact(range.length) {
            Some(payload) => Ok(payload),
            None => Err(EbmlError::Io(IoErrorKind::UnexpectedEof)),
        }
    }
}

/// Reads the element at the read position, which may reach up to `limit`.
///
/// The result is what [`element_at`] describes. On success the read
/// position stands behind the payload of the element; otherwise it has not
/// moved.
pub fn read_element_within<S: EbmlSchema>(r: &mut EbmlReader, limit: u64) -> (res: Result<
    ParsedElement,
    EbmlError,
>)
    ensures
        final(r).bytes() == old(r).bytes(),
        match res {
            Ok(element) => {
                &&& element_at::<S>(old(r).bytes(), old(r).pos() as int, limit as int) == Ok::<
                    ElementTree,
                    EbmlError,
                >(element@)
                &&& final(r).pos() == element.data.start + element.data.length
                &&& element.header.start == old(r).pos()
                &&& element.data.start == element.header.start + element.header.length
                &&& 2 <= element.header.length <= 16
                &&& element.data.start + element.data.length <= limit
                &&& element.data.start + element.data.length <= old(r).bytes().len()
            },
            Err(e) => {
                &&& element_at::<S>(old(r).bytes(), old(r).pos() as int, limit as int) == Err::<
                    ElementTree,
                    EbmlError,
                >(e)
                &&& final(r).pos() == old(r).pos()
            },
        },
    decreases limit - old(r).pos(),
{
    let ghost bytes = r.bytes();
    let header_start: u64 = r.position();
    let id_vint: EbmlId = match r.read_id() {
        Ok(id) => id,
        Err(e) => {
            return Err(e);
        },
    };
    let size_vint: EbmlSize = match r.read_size() {
        Ok(size) => size,
        Err(e) => {
            r.seek(header_start);
            return Err(e);
        },
    };
    let header_length: u64 = (id_vint.length + size_vint.length) as u64;
    let header = ByteRange { start: header_start, length: header_length };
    let data_start: u64 = r.position();
    let data_length: u64 = size_vint.value;
    let data = ByteRange { start: data_start, length: data_length };
    let len: u64 = r.len();
    if data_length > len - data_start {
        r.seek(header_start);
        return Err(EbmlError::UnexpectedEof);
    }
    let end: u64 = data_start + data_length;
    if end > limit {
        r.seek(header_start);
        return Err(EbmlError::ElementOverrun);
    }
    if S::is_master(id_vint.value) {
        let mut children: Vec<ParsedElement> = Vec::new();
        proof {
            lemma_trees_of(children@);
            assert(trees_of(children@) =~= Seq::<ElementTree>::empty());
        }
        while r.position() < end
            invariant
                r.bytes() == bytes,
                bytes == old(r).bytes(),
                header_start == old(r).pos(),
                header_start < data_start <= r.pos() <= end <= limit,
                end <= bytes.len(),
                header_at(bytes, header_start as int, limit as int) == Ok::<
                    (EbmlId, EbmlSize),
                    EbmlError,
                >((id_vint, size_vint)),
                S::master(id_vint.value),
                data_start == header_start + id_vint.length + size_vint.length,
                end == data_start + size_vint.value,
                elements_at::<S>(bytes, data_start as int, end as int) == after(
                    trees_of(children@),
                    elements_at::<S>(bytes, r.pos() as int, end as int),
                ),
            decreases end - r.pos(),
        {
            let ghost cur = r.pos() as int;
            let ghost before = trees_of(children@);
            match read_element_within::<S>(r, end) {
                Ok(child) => {
                    proof {
                        let next = child.data.start + child.data.length;
                        let rest = elements_at::<S>(bytes, next, end as int);
                        assert(elements_at::<S>(bytes, cur, end as int) == after(
                            seq![child@],
                            rest,
                        ));
                        lemma_trees_push(children@, child);
                        assert(before.push(child@) =~= before + seq![child@]);
                        match rest {
                            Ok(tail) => {
                                assert((before + seq![child@]) + tail =~= before + (seq![child@]
                                    + tail));
                            },
                            Err(_) => {},
                        }
                    }
                    children.push(child);
                },
                Err(e) => {
                    r.seek(header_start);
                    return Err(e);
                },
            }
        }
        proof {
            assert(trees_of(children@) + Seq::<ElementTree>::empty() =~= trees_of(children@));
        }
        return Ok(ParsedElement { id: id_vint.value, header, data, children: Some(children) });
    }
    r.seek(end);
    Ok(ParsedElement { id: id_vint.value, header, data, children: None })
}

/// Reads the element at the read position.
///
/// The result is what [`element_at`] describes for an element that may
/// reach up to the end of the input. On success the read position stands
/// behind the payload of the element; otherwise it has not moved.
pub fn read_element<S: EbmlSchema>(r: &mut EbmlReader) -> (res: Result<ParsedElement, EbmlError>)
    ensures
        final(r).bytes() == old(r).bytes(),
        match res {
            Ok(element) => {
                &&& element_at::<S>(
                    old(r).bytes(),
                    old(r).pos() as int,
                    old(r).bytes().len() as int,
                ) == Ok::<ElementTree, EbmlError>(element@)
                &&& final(r).pos() == element.data.start + element.data.length
            },
            Err(e) => {
                &&& element_at::<S>(
                    old(r).bytes(),
                    old(r).pos() as int,
                    old(r).bytes().len() as int,
                ) == Err::<ElementTree, EbmlError>(e)
                &&& final(r).pos() == old(r).pos()
            },
        },
{
    let len: u64 = r.len();
    read_element_within::<S>(r, len)
}

/// Reads the elements from the read position to the end of the input.
///
/// The result is what [`elements_at`] describes for that range: no element
/// where the input ends at the read position, and an error where it ends
/// inside an element. On success the read position stands at the end of the
/// input; otherwise it has not moved.
pub fn read_root<S: EbmlSchema>(r: &mut EbmlReader) -> (res: Result<Vec<ParsedElement>, EbmlError>)
    ensures
        final(r).bytes() == old(r).bytes(),
        match res {
            Ok(elements) => {
                &&& elements_at::<S>(
                    old(r).bytes(),
                    old(r).pos() as int,
                    old(r).bytes().len() as int,
                ) == Ok::<Seq<ElementTree>, EbmlError>(trees_of(elements@))
                &&& final(r).pos() == (if old(r).pos() < old(r).bytes().len() {
                    old(r).bytes().len() as int
                } else {
                    old(r).pos() as int
                })
            },
            Err(e) => {
                &&& elements_at::<S>(
                    old(r).bytes(),
                    old(r).pos() as int,
                    old(r).bytes().len() as int,
                ) == Err::<Seq<ElementTree>, EbmlError>(e)
                &&& final(r).pos() == old(r).pos()
            },
        },
{
    let ghost bytes = r.bytes();
    let start: u64 = r.position();
    let len: u64 = r.len();
    let mut elements: Vec<ParsedElement> = Vec::new();
    proof {
        lemma_trees_of(elements@);
        assert(trees_of(elements@) =~= Seq::<ElementTree>::empty());
    }
    while !r.at_eof()
        invariant
            r.bytes() == bytes,
            bytes == old(r).bytes(),
            start == old(r).pos(),
            len == bytes.len(),
            start <= r.pos(),
            start < len ==> r.pos() <= len,
            start >= len ==> r.pos() == start,
            elements_at::<S>(bytes, start as int, len as int) == after(
                trees_of(elements@),
                elements_at::<S>(bytes, r.pos() as int, len as int),
            ),
        decreases len - r.pos(),
    {
        let ghost cur = r.pos() as int;
        let ghost before = trees_of(elements@);
        match read_element_within::<S>(r, len) {
            Ok(element) => {
                proof {
                    let next = element.data.start + element.data.length;
                    let rest = elements_at::<S>(bytes, next, len as int);
                    assert(elements_at::<S>(bytes, cur, len as int) == after(seq![element@], rest));
                    lemma_trees_push(elements@, element);
                    assert(before.push(element@) =~= before + seq![element@]);
                    match rest {
                        Ok(tail) => {
                            assert((before + seq![element@]) + tail =~= before + (seq![element@]
                                + tail));
                        },
                        Err(_) => {},
                    }
                }
                elements.push(element);
            },
            Err(e) => {
                r.seek(start);
                return Err(e);
            },
        }
    }
    proof {
        assert(trees_of(elements@) + Seq::<ElementTree>::empty() =~= trees_of(elements@));
    }
    Ok(elements)
}

} // verus!
