//! A document as an indented tree: one line for each section and for each
//! field that the input holds. Fields that stand at their defaults are left
//! out.

use vstd::prelude::*;
use vstd::string::StringExecFns;
use crate::ebml::reader::{ElementTree, ParsedElement};
use crate::matroska::document::{EbmlHeader, Info, MatroskaDocument, Segment};
use crate::matroska::{Field, OptionalField};
use crate::util::text::{debug_string, debug_text, decimal, decimal_text};
use crate::util::tree_printer::{node_text, TreePrintable, TreePrinter};

verus! {

/// The byte range of an element as it is shown: from the start of its header
/// to the end of its payload.
pub open spec fn span_text(raw: ElementTree) -> Seq<char> {
    " [bytes "@ + decimal_text(raw.header.start as nat) + ".."@ + decimal_text(
        (raw.data.start + raw.data.length) as nat,
    ) + "]"@
}

/// The byte range of `raw` as it is shown.
pub fn span(raw: &ParsedElement) -> (text: String)
    ensures
        text@ == span_text(raw@),
{
    let mut text: String = String::from_str(" [bytes ");
    let start: String = decimal(raw.header.start as u128);
    text.append(start.as_str());
    text.append("..");
    let end: String = decimal(raw.data.start as u128 + raw.data.length as u128);
    text.append(end.as_str());
    text.append("]");
    text
}

/// The label of a section: its name, and its byte range where ranges are
/// shown.
pub open spec fn element_label_text(name: Seq<char>, raw: ElementTree, show_bytes: bool) -> Seq<
    char,
> {
    if show_bytes {
        name + span_text(raw)
    } else {
        name
    }
}

/// The label of the section `name` that `raw` holds.
pub fn element_label(name: &str, raw: &ParsedElement, show_bytes: bool) -> (label: String)
    ensures
        label@ == element_label_text(name@, raw@, show_bytes),
{
    let mut label: String = String::from_str(name);
    if show_bytes {
        let range: String = span(raw);
        label.append(range.as_str());
    }
    label
}

/// The label of a field: its name and its value, and the byte range of its
/// element where ranges are shown. None for a field that no element holds.
pub open spec fn field_label_text(
    name: Seq<char>,
    value: Seq<char>,
    raw: Option<ElementTree>,
    show_bytes: bool,
) -> Option<Seq<char>> {
    match raw {
        None => None,
        Some(element) => Some(
            name + ": "@ + value + (if show_bytes {
                span_text(element)
            } else {
                Seq::empty()
            }),
        ),
    }
}

/// The label of the field `name` with the value `value`, written out, that
/// `raw` holds.
pub fn field_label(name: &str, value: &str, raw: Option<&ParsedElement>, show_bytes: bool) -> (label:
    Option<String>)
    ensures
        match label {
            Some(text) => field_label_text(
                name@,
                value@,
                match raw {
                    Some(element) => Some(element@),
                    None => None,
                },
                show_bytes,
            ) == Some(text@),
            None => raw is None,
        },
{
    let element: &ParsedElement = match raw {
        Some(element) => element,
        None => {
            return None;
        },
    };
    let mut label: String = String::from_str(name);
    label.append(": ");
    label.append(value);
    if show_bytes {
        let range: String = span(element);
        label.append(range.as_str());
    } else {
        assert(label@ + Seq::<char>::empty() =~= label@);
    }
    Some(label)
}

/// The label of a text field.
pub open spec fn text_label(name: Seq<char>, field: Field<String>, show_bytes: bool) -> Option<
    Seq<char>,
> {
    field_label_text(name, debug_text(field.value@), Some(field.raw@), show_bytes)
}

/// The label of an integer field; none where it stands at its default.
pub open spec fn integer_label(name: Seq<char>, field: OptionalField<u64>, show_bytes: bool)
    -> Option<Seq<char>> {
    match field {
        OptionalField::Present(f) => field_label_text(
            name,
            decimal_text(f.value as nat),
            Some(f.raw@),
            show_bytes,
        ),
        OptionalField::Default(_) => None,
    }
}

/// The label of the integer field `name`.
fn label_of_integer(name: &str, field: &OptionalField<u64>, show_bytes: bool) -> (label: Option<
    String,
>)
    ensures
        match label {
            Some(text) => integer_label(name@, *field, show_bytes) == Some(text@),
            None => integer_label(name@, *field, show_bytes) is None,
        },
{
    match field {
        OptionalField::Present(f) => {
            let value: String = decimal(f.value as u128);
            field_label(name, value.as_str(), Some(&f.raw), show_bytes)
        },
        OptionalField::Default(_) => None,
    }
}

/// The labels that are there, in order.
pub open spec fn present(labels: Seq<Option<Seq<char>>>) -> Seq<Seq<char>>
    decreases labels.len(),
{
    if labels.len() == 0 {
        Seq::empty()
    } else {
        present(labels.drop_last()) + (match labels.last() {
            Some(label) => seq![label],
            None => Seq::empty(),
        })
    }
}

/// The labels of the fields of an EBML header that the input holds.
pub open spec fn header_labels(header: EbmlHeader, show_bytes: bool) -> Seq<Seq<char>> {
    present(
        seq![
            text_label("docType"@, header.doctype, show_bytes),
            integer_label("docTypeVersion"@, header.doctype_version, show_bytes),
            integer_label("docTypeReadVersion"@, header.doctype_read_version, show_bytes),
            integer_label("maxIDLength"@, header.max_id_length, show_bytes),
            integer_label("maxSizeLength"@, header.max_size_length, show_bytes),
        ],
    )
}

/// The lines of the first `count` of `labels` as the children of one node:
/// the last label of all is drawn as the last child.
pub open spec fn lines_text(ancestors: Seq<bool>, labels: Seq<Seq<char>>, count: nat) -> Seq<char>
    decreases count,
{
    if count == 0 || count > labels.len() {
        Seq::empty()
    } else {
        lines_text(ancestors, labels, (count - 1) as nat) + node_text(
            ancestors,
            count == labels.len(),
            labels[count - 1],
        )
    }
}

/// The texts of a list of strings.
pub open spec fn texts(labels: Seq<String>) -> Seq<Seq<char>> {
    Seq::new(labels.len(), |i: int| labels[i]@)
}

/// The text of a label where there is one.
pub open spec fn label_text(label: Option<String>) -> Option<Seq<char>> {
    match label {
        Some(text) => Some(text@),
        None => None,
    }
}

/// Adds `label` to `labels` where there is one.
fn keep(labels: &mut Vec<String>, label: Option<String>, Ghost(seen): Ghost<Seq<Option<Seq<char>>>>)
    requires
        texts(old(labels)@) == present(seen),
    ensures
        texts(final(labels)@) == present(seen.push(label_text(label))),
{
    let ghost next = seen.push(label_text(label));
    assert(next.drop_last() =~= seen);
    match label {
        Some(text) => {
            labels.push(text);
            assert(texts(labels@) =~= texts(old(labels)@) + seq![text@]);
        },
        None => {
            assert(texts(labels@) + Seq::<Seq<char>>::empty() =~= texts(labels@));
        },
    }
}

impl TreePrintable for EbmlHeader {
    /// The line of the header, and below it one line for each field that
    /// the input holds.
    open spec fn tree_text(&self, ancestors: Seq<bool>, last: bool, show_bytes: bool) -> Seq<char> {
        node_text(ancestors, last, element_label_text("EBML Header"@, self.raw@, show_bytes))
            + lines_text(
            ancestors.push(last),
            header_labels(*self, show_bytes),
            header_labels(*self, show_bytes).len(),
        )
    }

    fn print_tree(&self, out: &mut String, printer: &TreePrinter, last: bool, show_bytes: bool) -> (r:
        Result<(), core::fmt::Error>) {
        let label: String = element_label("EBML Header", &self.raw, show_bytes);
        let _ = printer.node(out, last, label.as_str());
        let inner: TreePrinter = printer.child_scope(last);

        let mut labels: Vec<String> = Vec::new();
        let ghost mut seen: Seq<Option<Seq<char>>> = Seq::empty();
        assert(texts(labels@) =~= present(seen));
        let doctype: String = debug_string(&self.doctype.value);
        let first: Option<String> = field_label(
            "docType",
            doctype.as_str(),
            Some(&self.doctype.raw),
            show_bytes,
        );
        keep(&mut labels, first, Ghost(seen));
        proof {
            seen = seen.push(text_label("docType"@, self.doctype, show_bytes));
        }
        let second: Option<String> = label_of_integer(
            "docTypeVersion",
            &self.doctype_version,
            show_bytes,
        );
        keep(&mut labels, second, Ghost(seen));
        proof {
            seen = seen.push(integer_label("docTypeVersion"@, self.doctype_version, show_bytes));
        }
        let third: Option<String> = label_of_integer(
            "docTypeReadVersion",
            &self.doctype_read_version,
            show_bytes,
        );
        keep(&mut labels, third, Ghost(seen));
        proof {
            seen = seen.push(
                integer_label("docTypeReadVersion"@, self.doctype_read_version, show_bytes),
            );
        }
        let fourth: Option<String> = label_of_integer(
            "maxIDLength",
            &self.max_id_length,
            show_bytes,
        );
        keep(&mut labels, fourth, Ghost(seen));
        proof {
            seen = seen.push(integer_label("maxIDLength"@, self.max_id_length, show_bytes));
        }
        let fifth: Option<String> = label_of_integer(
            "maxSizeLength",
            &self.max_size_length,
            show_bytes,
        );
        keep(&mut labels, fifth, Ghost(seen));
        proof {
            seen = seen.push(integer_label("maxSizeLength"@, self.max_size_length, show_bytes));
            assert(seen =~= seq![
                text_label("docType"@, self.doctype, show_bytes),
                integer_label("docTypeVersion"@, self.doctype_version, show_bytes),
                integer_label("docTypeReadVersion"@, self.doctype_read_version, show_bytes),
                integer_label("maxIDLength"@, self.max_id_length, show_bytes),
                integer_label("maxSizeLength"@, self.max_size_length, show_bytes),
            ]);
        }
        let ghost all = header_labels(*self, show_bytes);
        let ghost start = out@;
        let mut i: usize = 0;
        assert(start + Seq::<char>::empty() =~= start);
        while i < labels.len()
            invariant
                i <= labels@.len(),
                texts(labels@) == all,
                inner.ancestors() == printer.ancestors().push(last),
                out@ == start + lines_text(inner.ancestors(), all, i as nat),
            decreases labels@.len() - i,
        {
            let is_last: bool = i == labels.len() - 1;
            let ghost before = out@;
            let _ = inner.node(out, is_last, labels[i].as_str());
            proof {
                let line = node_text(inner.ancestors(), is_last, all[i as int]);
                assert(lines_text(inner.ancestors(), all, (i + 1) as nat) == lines_text(
                    inner.ancestors(),
                    all,
                    i as nat,
                ) + line);
                assert(before + line =~= start + (lines_text(inner.ancestors(), all, i as nat)
                    + line));
            }
            i = i + 1;
        }
        assert(out@ =~= old(out)@ + self.tree_text(printer.ancestors(), last, show_bytes));
        Ok(())
    }
}

impl TreePrintable for Info {
    /// The line of the segment information.
    open spec fn tree_text(&self, ancestors: Seq<bool>, last: bool, show_bytes: bool) -> Seq<char> {
        node_text(ancestors, last, element_label_text("Info"@, self.raw@, show_bytes))
    }

    fn print_tree(&self, out: &mut String, printer: &TreePrinter, last: bool, show_bytes: bool) -> (r:
        Result<(), core::fmt::Error>) {
        let label: String = element_label("Info", &self.raw, show_bytes);
        printer.node(out, last, label.as_str())
    }
}

impl TreePrintable for Segment {
    /// The line of the segment, and below it the segment information.
    open spec fn tree_text(&self, ancestors: Seq<bool>, last: bool, show_bytes: bool) -> Seq<char> {
        node_text(ancestors, last, element_label_text("Segment"@, self.raw@, show_bytes))
            + self.info.tree_text(ancestors.push(last), true, show_bytes)
    }

    fn print_tree(&self, out: &mut String, printer: &TreePrinter, last: bool, show_bytes: bool) -> (r:
        Result<(), core::fmt::Error>) {
        let label: String = element_label("Segment", &self.raw, show_bytes);
        let _ = printer.node(out, last, label.as_str());
        let inner: TreePrinter = printer.child_scope(last);
        let _ = self.info.print_tree(out, &inner, true, show_bytes);
        assert(out@ =~= old(out)@ + self.tree_text(printer.ancestors(), last, show_bytes));
        Ok(())
    }
}

/// The listing of a document: a title, the EBML header, and the segment as
/// the last child.
pub open spec fn document_text(doc: MatroskaDocument, show_bytes: bool) -> Seq<char> {
    "MatroskaDocument\n"@ + doc.ebml_header.tree_text(Seq::empty(), false, show_bytes)
        + doc.segment.tree_text(Seq::empty(), true, show_bytes)
}

/// The document `doc` as an indented tree, with the byte ranges of its
/// elements where `show_bytes` is set.
pub fn print_matroska_tree(doc: &MatroskaDocument, show_bytes: bool) -> (r: Result<
    String,
    core::fmt::Error,
>)
    ensures
        r matches Ok(text) && text@ == document_text(*doc, show_bytes),
{
    let mut out: String = String::from_str("MatroskaDocument\n");
    let printer: TreePrinter = TreePrinter::new();
    let _ = doc.ebml_header.print_tree(&mut out, &printer, false, show_bytes);
    let _ = doc.segment.print_tree(&mut out, &printer, true, show_bytes);
    Ok(out)
}

} // verus!
