//! The tree writer: it serialises a tree of containers and leaves into the
//! bytes that the tree reader reads.

use vstd::prelude::*;
use crate::ebml::error::EbmlError;
use crate::ebml::vint::{encode_id, encode_size, id_bytes, id_length, size_bytes, size_length};

verus! {

/// A tree to write.
#[derive(Debug)]
pub enum Element {
    /// A sequence of elements without a header of its own.
    Root { children: Vec<Element> },
    /// A container: an identifier and the elements that its payload holds.
    Master { id: u64, children: Vec<Element> },
    /// A leaf: an identifier and the bytes of its payload.
    Raw { id: u64, data: Vec<u8> },
}

/// The mathematical value of an [`Element`].
pub enum ElementModel {
    Root { children: Seq<ElementModel> },
    Master { id: u64, children: Seq<ElementModel> },
    Raw { id: u64, data: Seq<u8> },
}

/// The mathematical value of `element`.
pub open spec fn model_of(element: Element) -> ElementModel
    decreases element, 0nat,
{
    match element {
        Element::Root { children } => ElementModel::Root {
            children: models_to(children@, children@.len()),
        },
        Element::Master { id, children } => ElementModel::Master {
            id,
            children: models_to(children@, children@.len()),
        },
        Element::Raw { id, data } => ElementModel::Raw { id, data: data@ },
    }
}

/// The mathematical values of the first `count` of `items`.
pub open spec fn models_to(items: Seq<Element>, count: nat) -> Seq<ElementModel>
    decreases items, count,
{
    if count == 0 || count > items.len() {
        Seq::empty()
    } else {
        models_to(items, (count - 1) as nat).push(model_of(items[count - 1]))
    }
}

/// The mathematical values of a list of elements.
pub open spec fn models_of(items: Seq<Element>) -> Seq<ElementModel> {
    models_to(items, items.len())
}

impl View for Element {
    type V = ElementModel;

    open spec fn view(&self) -> ElementModel {
        model_of(*self)
    }
}

/// The values of a list are the values of its items, one for one.
pub proof fn lemma_models_to(items: Seq<Element>, count: nat)
    requires
        count <= items.len(),
    ensures
        models_to(items, count).len() == count,
        forall|i: int| 0 <= i < count ==> #[trigger] models_to(items, count)[i] == items[i]@,
    decreases count,
{
    if count > 0 {
        lemma_models_to(items, (count - 1) as nat);
    }
}

/// The bytes of the header of an element with the identifier `id` and a
/// payload of `length` bytes: the identifier, then the shortest size field
/// for `length`.
///
/// `InvalidId` where `id` is no identifier, else `SizeTooLarge` where eight
/// bytes cannot hold `length`.
pub open spec fn header_bytes(id: u64, length: nat) -> Result<Seq<u8>, EbmlError> {
    if id_length(id as nat) == 0 {
        Err(EbmlError::InvalidId)
    } else if size_length(length) == 0 {
        Err(EbmlError::SizeTooLarge)
    } else {
        Ok(id_bytes(id as nat) + size_bytes(length))
    }
}

/// The bytes of an element with the identifier `id` and the payload
/// `payload`: its header and the payload. The errors are those of the
/// header.
pub open spec fn framed(id: u64, payload: Seq<u8>) -> Result<Seq<u8>, EbmlError> {
    match header_bytes(id, payload.len()) {
        Err(e) => Err(e),
        Ok(header) => Ok(header + payload),
    }
}

/// The bytes of `node`.
///
/// A leaf is framed with its bytes as they are. A container is framed with
/// the bytes of its children, one after the other. A root is the bytes of
/// its children and nothing else. The first error of a child is the error of
/// its parent.
pub open spec fn encoded(node: ElementModel) -> Result<Seq<u8>, EbmlError>
    decreases node, 0nat,
{
    match node {
        ElementModel::Root { children } => encoded_from(children, 0),
        ElementModel::Master { id, children } => match encoded_from(children, 0) {
            Err(e) => Err(e),
            Ok(payload) => framed(id, payload),
        },
        ElementModel::Raw { id, data } => framed(id, data),
    }
}

/// The bytes of the nodes of `items` from the index `from` on, one after the
/// other.
pub open spec fn encoded_from(items: Seq<ElementModel>, from: nat) -> Result<Seq<u8>, EbmlError>
    decreases items, items.len() - from,
{
    if from >= items.len() {
        Ok(Seq::empty())
    } else {
        match encoded(items[from as int]) {
            Err(e) => Err(e),
            Ok(first) => match encoded_from(items, from + 1) {
                Err(e) => Err(e),
                Ok(rest) => Ok(first + rest),
            },
        }
    }
}

/// `rest` with `head` in front of its bytes.
pub open spec fn behind(head: Seq<u8>, rest: Result<Seq<u8>, EbmlError>) -> Result<
    Seq<u8>,
    EbmlError,
> {
    match rest {
        Ok(tail) => Ok(head + tail),
        Err(e) => Err(e),
    }
}

/// Writes the header of an element with the identifier `id` and a payload
/// of `length` bytes, as [`header_bytes`] describes it.
pub fn write_header(id: u64, length: u64) -> (r: Result<Vec<u8>, EbmlError>)
    ensures
        match r {
            Ok(out) => header_bytes(id, length as nat) == Ok::<Seq<u8>, EbmlError>(out@),
            Err(e) => header_bytes(id, length as nat) == Err::<Seq<u8>, EbmlError>(e),
        },
{
    let mut out: Vec<u8> = encode_id(id)?;
    let mut size: Vec<u8> = encode_size(length)?;
    out.append(&mut size);
    Ok(out)
}

/// Frames `payload` as the payload of an element with the identifier `id`.
fn frame(id: u64, payload: Vec<u8>) -> (r: Result<Vec<u8>, EbmlError>)
    ensures
        match r {
            Ok(out) => framed(id, payload@) == Ok::<Seq<u8>, EbmlError>(out@),
            Err(e) => framed(id, payload@) == Err::<Seq<u8>, EbmlError>(e),
        },
{
    let mut out: Vec<u8> = write_header(id, payload.len() as u64)?;
    let mut payload = payload;
    out.append(&mut payload);
    Ok(out)
}

/// The bytes of the elements of `items`, one after the other.
fn concat_bytes(items: &Vec<Element>) -> (r: Result<Vec<u8>, EbmlError>)
    ensures
        match r {
            Ok(out) => encoded_from(models_of(items@), 0) == Ok::<Seq<u8>, EbmlError>(out@),
            Err(e) => encoded_from(models_of(items@), 0) == Err::<Seq<u8>, EbmlError>(e),
        },
    decreases items, 1nat,
{
    let ghost models = models_of(items@);
    proof {
        lemma_models_to(items@, items@.len());
    }
    let mut out: Vec<u8> = Vec::new();
    let mut i: usize = 0;
    while i < items.len()
        invariant
            i <= items@.len(),
            models == models_of(items@),
            models.len() == items@.len(),
            forall|k: int| 0 <= k < items@.len() ==> #[trigger] models[k] == items@[k]@,
            encoded_from(models, 0) == behind(out@, encoded_from(models, i as nat)),
        decreases items@.len() - i,
    {
        let ghost before = out@;
        let mut bytes: Vec<u8> = match items[i].to_bytes() {
            Ok(bytes) => bytes,
            Err(e) => {
                return Err(e);
            },
        };
        proof {
            let rest = encoded_from(models, (i + 1) as nat);
            assert(encoded_from(models, i as nat) == behind(bytes@, rest));
            match rest {
                Ok(tail) => {
                    assert((before + bytes@) + tail =~= before + (bytes@ + tail));
                },
                Err(_) => {},
            }
        }
        out.append(&mut bytes);
        i = i + 1;
    }
    proof {
        assert(out@ + Seq::<u8>::empty() =~= out@);
    }
    Ok(out)
}

impl Element {
    /// The bytes of the tree, as [`encoded`] describes them.
    pub fn to_bytes(&self) -> (r: Result<Vec<u8>, EbmlError>)
        ensures
            match r {
                Ok(out) => encoded(self@) == Ok::<Seq<u8>, EbmlError>(out@),
                Err(e) => encoded(self@) == Err::<Seq<u8>, EbmlError>(e),
            },
        decreases self, 0nat,
    {
        match self {
            Element::Root { children } => concat_bytes(children),
            Element::Master { id, children } => {
                let payload: Vec<u8> = concat_bytes(children)?;
                frame(*id, payload)
            },
            Element::Raw { id, data } => {
                let payload: Vec<u8> = data.clone();
                assert(payload@ =~= data@);
                frame(*id, payload)
            },
        }
    }
}

} // verus!
