//! What is written can be read back: the tree reader finds in the bytes of
//! the tree writer the tree that was written.

use vstd::prelude::*;
use crate::ebml::error::EbmlError;
use crate::ebml::reader::{element_at, elements_at, header_at, node, EbmlSchema, ElementTree};
use crate::ebml::source::window;
use crate::ebml::vint::{
    id_bytes, id_length, lemma_be_bytes_len, lemma_vint_at_encoded, size_bytes, size_length,
    vint_marker, EbmlId, EbmlSize,
};
use crate::ebml::writer::{encoded, encoded_from, framed, header_bytes, ElementModel};

verus! {

/// `tree` is made of containers and leaves, and the schema `S` tells them
/// apart as the tree does: it calls the identifier of every container a
/// container, and that of no leaf.
pub open spec fn fits_schema<S: EbmlSchema>(tree: ElementModel) -> bool
    decreases tree, 0nat,
{
    match tree {
        ElementModel::Root { children } => false,
        ElementModel::Master { id, children } => S::master(id) && all_fit::<S>(children, 0),
        ElementModel::Raw { id, data } => !S::master(id),
    }
}

/// Each of `items` from the index `from` on fits the schema `S`.
pub open spec fn all_fit<S: EbmlSchema>(items: Seq<ElementModel>, from: nat) -> bool
    decreases items, items.len() - from,
{
    from >= items.len() || (fits_schema::<S>(items[from as int]) && all_fit::<S>(items, from + 1))
}

/// The header that stands for `id` in front of a payload of `length` bytes.
pub open spec fn header_of(id: u64, length: nat) -> (EbmlId, EbmlSize) {
    (
        EbmlId { value: id, length: id_length(id as nat) as u8 },
        EbmlSize { value: length as u64, length: size_length(length) as u8 },
    )
}

/// The tree that is read where `node` was written at `pos`: the same
/// identifiers in the same nesting, each with the ranges that its header and
/// its payload take in the bytes of the tree.
pub open spec fn read_back(tree: ElementModel, pos: int) -> ElementTree
    decreases tree, 0nat,
{
    match tree {
        ElementModel::Raw { id, data } => node(
            pos,
            header_of(id, data.len()).0,
            header_of(id, data.len()).1,
            None,
        ),
        ElementModel::Master { id, children } => {
            let length = encoded_from(children, 0)->Ok_0.len();
            node(
                pos,
                header_of(id, length).0,
                header_of(id, length).1,
                Some(
                    read_back_from(
                        children,
                        0,
                        pos + id_length(id as nat) + size_length(length),
                    ),
                ),
            )
        },
        ElementModel::Root { children } => node(
            pos,
            header_of(0, 0).0,
            header_of(0, 0).1,
            Some(read_back_from(children, 0, pos)),
        ),
    }
}

/// The trees that are read where the nodes of `items` from the index `from`
/// on were written one after the other, the first at `pos`.
pub open spec fn read_back_from(items: Seq<ElementModel>, from: nat, pos: int) -> Seq<ElementTree>
    decreases items, items.len() - from,
{
    if from >= items.len() {
        Seq::empty()
    } else {
        seq![read_back(items[from as int], pos)] + read_back_from(
            items,
            from + 1,
            pos + encoded(items[from as int])->Ok_0.len(),
        )
    }
}

/// Where the bytes of a framed payload stand at `pos`, the header that is
/// read there is the one that was written.
proof fn lemma_header_read_back(bytes: Seq<u8>, pos: int, limit: int, id: u64, payload: Seq<u8>)
    requires
        framed(id, payload) is Ok,
        window(bytes, pos, framed(id, payload)->Ok_0.len() as int) == Some(
            framed(id, payload)->Ok_0,
        ),
        pos + framed(id, payload)->Ok_0.len() <= limit,
    ensures
        header_at(bytes, pos, limit) == Ok::<(EbmlId, EbmlSize), EbmlError>(
            header_of(id, payload.len()),
        ),
        framed(id, payload)->Ok_0.len() == id_length(id as nat) + size_length(payload.len())
            + payload.len(),
        window(
            bytes,
            pos + id_length(id as nat) + size_length(payload.len()),
            payload.len() as int,
        ) == Some(payload),
        payload.len() < 0x0100_0000_0000_0000,
        1 <= id_length(id as nat) <= 8,
        1 <= size_length(payload.len()) <= 8,
{
    let enc = framed(id, payload)->Ok_0;
    let head = header_bytes(id, payload.len())->Ok_0;
    let id_len = id_length(id as nat);
    let size_len = size_length(payload.len());
    lemma_be_bytes_len(id as nat, id_len as nat);
    lemma_be_bytes_len(payload.len() + vint_marker(size_len), size_len as nat);
    assert(enc == head + payload);
    assert(bytes.subrange(pos, pos + enc.len()) == enc);
    assert(bytes.subrange(pos, pos + head.len()) =~= head) by {
        assert forall|i: int| 0 <= i < head.len() implies bytes.subrange(pos, pos + head.len())[i]
            == head[i] by {
            assert(bytes[pos + i] == bytes.subrange(pos, pos + enc.len())[i]);
        }
    }
    assert(bytes.subrange(pos + head.len(), pos + head.len() + payload.len()) =~= payload) by {
        assert forall|i: int| 0 <= i < payload.len() implies bytes.subrange(
            pos + head.len(),
            pos + head.len() + payload.len(),
        )[i] == payload[i] by {
            assert(bytes[pos + head.len() + i] == bytes.subrange(pos, pos + enc.len())[head.len()
                + i]);
        }
    }
    lemma_header_round_trip(bytes, pos, limit, id, payload.len());
}

/// Reading a written header gives the header back: where the header of an
/// element stands at `pos`, with room for its payload within the input and
/// within `limit`, the identifier and the size that are read there are those
/// that were written, each with the length that it was written with.
pub proof fn lemma_header_round_trip(bytes: Seq<u8>, pos: int, limit: int, id: u64, length: nat)
    requires
        header_bytes(id, length) is Ok,
        window(bytes, pos, header_bytes(id, length)->Ok_0.len() as int) == Some(
            header_bytes(id, length)->Ok_0,
        ),
        pos + header_bytes(id, length)->Ok_0.len() + length <= limit,
        pos + header_bytes(id, length)->Ok_0.len() + length <= bytes.len(),
    ensures
        header_at(bytes, pos, limit) == Ok::<(EbmlId, EbmlSize), EbmlError>(header_of(id, length)),
{
    let enc = header_bytes(id, length)->Ok_0;
    let id_len = id_length(id as nat);
    let size_len = size_length(length);
    let raw = length + vint_marker(size_len);
    lemma_be_bytes_len(id as nat, id_len as nat);
    lemma_be_bytes_len(raw, size_len as nat);
    let idb = id_bytes(id as nat);
    let szb = size_bytes(length);
    assert(bytes.subrange(pos, pos + enc.len()) == enc);
    assert(bytes.subrange(pos, pos + id_len) =~= idb) by {
        assert forall|i: int| 0 <= i < id_len implies bytes.subrange(pos, pos + id_len)[i]
            == idb[i] by {
            assert(bytes[pos + i] == bytes.subrange(pos, pos + enc.len())[i]);
        }
    }
    assert(bytes.subrange(pos + id_len, pos + id_len + size_len) =~= szb) by {
        assert forall|i: int| 0 <= i < size_len implies bytes.subrange(
            pos + id_len,
            pos + id_len + size_len,
        )[i] == szb[i] by {
            assert(bytes[pos + id_len + i] == bytes.subrange(pos, pos + enc.len())[id_len + i]);
        }
    }
    lemma_vint_at_encoded(bytes, pos, id as nat, id_len);
    lemma_vint_at_encoded(bytes, pos + id_len, raw, size_len);
}

/// Where the bytes of a tree stand at `pos`, within `limit`, the element
/// that is read there is the tree.
proof fn lemma_reads_back<S: EbmlSchema>(bytes: Seq<u8>, pos: int, limit: int, tree: ElementModel)
    requires
        fits_schema::<S>(tree),
        encoded(tree) is Ok,
        window(bytes, pos, encoded(tree)->Ok_0.len() as int) == Some(encoded(tree)->Ok_0),
        pos + encoded(tree)->Ok_0.len() <= limit,
    ensures
        element_at::<S>(bytes, pos, limit) == Ok::<ElementTree, EbmlError>(read_back(tree, pos)),
        header_at(bytes, pos, limit) matches Ok((id, size)) && id.length + size.length + size.value
            == encoded(tree)->Ok_0.len(),
        encoded(tree)->Ok_0.len() >= 2,
    decreases tree, 0nat,
{
    match tree {
        ElementModel::Raw { id, data } => {
            lemma_header_read_back(bytes, pos, limit, id, data);
        },
        ElementModel::Master { id, children } => {
            let payload = encoded_from(children, 0)->Ok_0;
            lemma_header_read_back(bytes, pos, limit, id, payload);
            let data_start = pos + id_length(id as nat) + size_length(payload.len());
            lemma_reads_back_from::<S>(bytes, data_start, data_start + payload.len(), children, 0);
        },
        ElementModel::Root { children } => {},
    }
}

/// Where the bytes of a sequence of trees fill the input from `pos` to
/// `end`, the elements that are read there are the trees.
proof fn lemma_reads_back_from<S: EbmlSchema>(
    bytes: Seq<u8>,
    pos: int,
    end: int,
    items: Seq<ElementModel>,
    from: nat,
)
    requires
        all_fit::<S>(items, from),
        encoded_from(items, from) is Ok,
        window(bytes, pos, encoded_from(items, from)->Ok_0.len() as int) == Some(
            encoded_from(items, from)->Ok_0,
        ),
        pos + encoded_from(items, from)->Ok_0.len() == end,
    ensures
        elements_at::<S>(bytes, pos, end) == Ok::<Seq<ElementTree>, EbmlError>(
            read_back_from(items, from, pos),
        ),
    decreases items, items.len() - from,
{
    if from < items.len() {
        let first = encoded(items[from as int])->Ok_0;
        let rest = encoded_from(items, from + 1)->Ok_0;
        let all = encoded_from(items, from)->Ok_0;
        assert(all == first + rest);
        assert(bytes.subrange(pos, pos + all.len()) == all);
        assert(bytes.subrange(pos, pos + first.len()) =~= first) by {
            assert forall|i: int| 0 <= i < first.len() implies bytes.subrange(
                pos,
                pos + first.len(),
            )[i] == first[i] by {
                assert(bytes[pos + i] == bytes.subrange(pos, pos + all.len())[i]);
            }
        }
        assert(bytes.subrange(pos + first.len(), pos + first.len() + rest.len()) =~= rest) by {
            assert forall|i: int| 0 <= i < rest.len() implies bytes.subrange(
                pos + first.len(),
                pos + first.len() + rest.len(),
            )[i] == rest[i] by {
                assert(bytes[pos + first.len() + i] == bytes.subrange(pos, pos + all.len())[
                    first.len() + i]);
            }
        }
        lemma_reads_back::<S>(bytes, pos, end, items[from as int]);
        lemma_reads_back_from::<S>(bytes, pos + first.len(), end, items, from + 1);
    }
}

/// The payloads of the leaves of `tree` stand in `bytes` in the ranges that
/// the tree read back from `pos` gives them.
pub open spec fn keeps_payloads(bytes: Seq<u8>, tree: ElementModel, pos: int) -> bool
    decreases tree, 0nat,
{
    match tree {
        ElementModel::Raw { id, data } => window(
            bytes,
            pos + id_length(id as nat) + size_length(data.len()),
            data.len() as int,
        ) == Some(data),
        ElementModel::Master { id, children } => keeps_payloads_from(
            bytes,
            children,
            0,
            pos + id_length(id as nat) + size_length(encoded_from(children, 0)->Ok_0.len()),
        ),
        ElementModel::Root { children } => keeps_payloads_from(bytes, children, 0, pos),
    }
}

/// The payloads of the leaves of `items` from the index `from` on stand in
/// `bytes` where the trees read back say, the first tree at `pos`.
pub open spec fn keeps_payloads_from(
    bytes: Seq<u8>,
    items: Seq<ElementModel>,
    from: nat,
    pos: int,
) -> bool
    decreases items, items.len() - from,
{
    from >= items.len() || (keeps_payloads(bytes, items[from as int], pos) && keeps_payloads_from(
        bytes,
        items,
        from + 1,
        pos + encoded(items[from as int])->Ok_0.len(),
    ))
}

/// Where the bytes of a tree stand at `pos`, the payloads of its leaves
/// stand in their ranges.
proof fn lemma_keeps_payloads(bytes: Seq<u8>, pos: int, tree: ElementModel)
    requires
        encoded(tree) is Ok,
        window(bytes, pos, encoded(tree)->Ok_0.len() as int) == Some(encoded(tree)->Ok_0),
    ensures
        keeps_payloads(bytes, tree, pos),
    decreases tree, 0nat,
{
    let limit = pos + encoded(tree)->Ok_0.len();
    match tree {
        ElementModel::Raw { id, data } => {
            lemma_header_read_back(bytes, pos, limit, id, data);
        },
        ElementModel::Master { id, children } => {
            let payload = encoded_from(children, 0)->Ok_0;
            lemma_header_read_back(bytes, pos, limit, id, payload);
            lemma_keeps_payloads_from(
                bytes,
                pos + id_length(id as nat) + size_length(payload.len()),
                children,
                0,
            );
        },
        ElementModel::Root { children } => {
            lemma_keeps_payloads_from(bytes, pos, children, 0);
        },
    }
}

/// Where the bytes of a sequence of trees stand at `pos`, the payloads of
/// their leaves stand in their ranges.
proof fn lemma_keeps_payloads_from(bytes: Seq<u8>, pos: int, items: Seq<ElementModel>, from: nat)
    requires
        encoded_from(items, from) is Ok,
        window(bytes, pos, encoded_from(items, from)->Ok_0.len() as int) == Some(
            encoded_from(items, from)->Ok_0,
        ),
    ensures
        keeps_payloads_from(bytes, items, from, pos),
    decreases items, items.len() - from,
{
    if from < items.len() {
        let first = encoded(items[from as int])->Ok_0;
        let rest = encoded_from(items, from + 1)->Ok_0;
        let all = encoded_from(items, from)->Ok_0;
        assert(all == first + rest);
        assert(bytes.subrange(pos, pos + all.len()) == all);
        assert(bytes.subrange(pos, pos + first.len()) =~= first) by {
            assert forall|i: int| 0 <= i < first.len() implies bytes.subrange(
                pos,
                pos + first.len(),
            )[i] == first[i] by {
                assert(bytes[pos + i] == bytes.subrange(pos, pos + all.len())[i]);
            }
        }
        assert(bytes.subrange(pos + first.len(), pos + first.len() + rest.len()) =~= rest) by {
            assert forall|i: int| 0 <= i < rest.len() implies bytes.subrange(
                pos + first.len(),
                pos + first.len() + rest.len(),
            )[i] == rest[i] by {
                assert(bytes[pos + first.len() + i] == bytes.subrange(pos, pos + all.len())[
                    first.len() + i]);
            }
        }
        lemma_keeps_payloads(bytes, pos, items[from as int]);
        lemma_keeps_payloads_from(bytes, pos + first.len(), items, from + 1);
    }
}

/// What was written keeps its payloads: in the bytes of a tree, the payload
/// of every leaf stands in the range that reading the tree back gives the
/// leaf.
pub proof fn lemma_payloads_round_trip(tree: ElementModel)
    requires
        encoded(tree) is Ok,
    ensures
        keeps_payloads(encoded(tree)->Ok_0, tree, 0),
{
    let bytes = encoded(tree)->Ok_0;
    assert(bytes.subrange(0, bytes.len() as int) =~= bytes);
    lemma_keeps_payloads(bytes, 0, tree);
}

/// Reading what was written gives the tree that was written.
///
/// For every tree of containers and leaves that can be written, and every
/// schema that tells its containers from its leaves, the element that the
/// tree reader finds in the bytes of the tree is the tree: the same
/// identifiers in the same nesting, with the ranges that the headers and the
/// payloads take in those bytes.
pub proof fn lemma_element_round_trip<S: EbmlSchema>(tree: ElementModel)
    requires
        fits_schema::<S>(tree),
        encoded(tree) is Ok,
    ensures
        element_at::<S>(encoded(tree)->Ok_0, 0, encoded(tree)->Ok_0.len() as int) == Ok::<
            ElementTree,
            EbmlError,
        >(read_back(tree, 0)),
{
    let bytes = encoded(tree)->Ok_0;
    assert(bytes.subrange(0, bytes.len() as int) =~= bytes);
    lemma_reads_back::<S>(bytes, 0, bytes.len() as int, tree);
}

/// Reading what was written as a root gives the trees that were written.
///
/// For every sequence of trees of containers and leaves that can be written
/// under a root, and every schema that tells their containers from their
/// leaves, the elements that the tree reader finds in the bytes of the root
/// are those trees, in order.
pub proof fn lemma_root_round_trip<S: EbmlSchema>(children: Seq<ElementModel>)
    requires
        all_fit::<S>(children, 0),
        encoded(ElementModel::Root { children }) is Ok,
    ensures
        elements_at::<S>(
            encoded(ElementModel::Root { children })->Ok_0,
            0,
            encoded(ElementModel::Root { children })->Ok_0.len() as int,
        ) == Ok::<Seq<ElementTree>, EbmlError>(read_back_from(children, 0, 0)),
{
    let bytes = encoded(ElementModel::Root { children })->Ok_0;
    assert(bytes.subrange(0, bytes.len() as int) =~= bytes);
    lemma_reads_back_from::<S>(bytes, 0, bytes.len() as int, children, 0);
}

} // verus!
