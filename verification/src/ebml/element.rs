//! The elements that the flat reader lists.

use vstd::prelude::*;

verus! {

/// Where an element stands in the input, and what it is.
#[derive(Debug, Clone, Copy, PartialEq, Eq, Structural)]
pub struct NodeMeta {
    pub header_start: u64,
    pub data_start: u64,
    pub id: u32,
    pub data_size: u64,
}

/// What the flat reader made of an element's payload.
#[derive(Debug)]
pub enum ParsedElement {
    /// The EBML header, with the elements that its payload holds.
    EBMLHeader(Vec<Element>),
    /// Any other element: its payload was stepped over.
    Unkown,
}

/// An element that the flat reader found.
#[derive(Debug)]
pub struct Element {
    pub meta: NodeMeta,
    pub parsed: ParsedElement,
}

/// The mathematical value of a [`ParsedElement`].
pub enum ParsedView {
    EBMLHeader(Seq<ElementView>),
    Unkown,
}

/// The mathematical value of an [`Element`].
pub struct ElementView {
    pub meta: NodeMeta,
    pub parsed: ParsedView,
}

/// The mathematical value of `element`.
pub open spec fn element_view(element: Element) -> ElementView
    decreases element, 0nat,
{
    ElementView {
        meta: element.meta,
        parsed: match element.parsed {
            ParsedElement::EBMLHeader(children) => ParsedView::EBMLHeader(
                element_views_to(children@, children@.len()),
            ),
            ParsedElement::Unkown => ParsedView::Unkown,
        },
    }
}

/// The mathematical values of the first `count` of `items`.
pub open spec fn element_views_to(items: Seq<Element>, count: nat) -> Seq<ElementView>
    decreases items, count,
{
    if count == 0 || count > items.len() {
        Seq::empty()
    } else {
        element_views_to(items, (count - 1) as nat).push(element_view(items[count - 1]))
    }
}

/// The mathematical values of a list of elements.
pub open spec fn element_views(items: Seq<Element>) -> Seq<ElementView> {
    element_views_to(items, items.len())
}

impl View for Element {
    type V = ElementView;

    open spec fn view(&self) -> ElementView {
        element_view(*self)
    }
}

impl View for ParsedElement {
    type V = ParsedView;

    open spec fn view(&self) -> ParsedView {
        match self {
            ParsedElement::EBMLHeader(children) => ParsedView::EBMLHeader(element_views(children@)),
            ParsedElement::Unkown => ParsedView::Unkown,
        }
    }
}

/// The values of a list are the values of its items, one for one.
pub proof fn lemma_element_views(items: Seq<Element>, count: nat)
    requires
        count <= items.len(),
    ensures
        element_views_to(items, count).len() == count,
        forall|i: int| 0 <= i < count ==> #[trigger] element_views_to(items, count)[i] == items[i]@,
    decreases count,
{
    if count > 0 {
        lemma_element_views(items, (count - 1) as nat);
    }
}

/// The values of a list with one more item.
pub proof fn lemma_element_views_push(items: Seq<Element>, last: Element)
    ensures
        element_views(items.push(last)) == element_views(items).push(last@),
{
    lemma_element_views(items, items.len());
    lemma_element_views(items.push(last), items.len() + 1);
    assert(element_views(items.push(last)) =~= element_views(items).push(last@));
}

} // verus!
