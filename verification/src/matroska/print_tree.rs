//! A document as an indented tree with every field of the EBML header: a
//! field that the input does not hold is shown with its default and marked
//! as such.

use vstd::prelude::*;
use vstd::string::StringExecFns;
use crate::ebml::reader::{ElementTree, ParsedElement};
use crate::matroska::document::{EbmlHeader, MatroskaDocument};
use crate::matroska::printer::{span, span_text};
use crate::matroska::OptionalField;
use crate::util::text::{debug_string, debug_text, decimal, decimal_text};
use crate::util::tree_printer::branch_text;

verus! {

/// `count` rules, one for each level above the parent of a node.
pub open spec fn rules_text(count: nat) -> Seq<char>
    decreases count,
{
    if count == 0 {
        Seq::empty()
    } else {
        rules_text((count - 1) as nat) + "│   "@
    }
}

/// The number of rules in front of a node at the depth `depth`: one less
/// than the depth, and none at the top.
pub open spec fn rules_at(depth: usize) -> nat {
    if depth == 0 {
        0
    } else {
        (depth - 1) as nat
    }
}

/// Writes the rules in front of a node at the depth `depth`.
pub fn indent(out: &mut String, depth: usize)
    ensures
        final(out)@ == old(out)@ + rules_text(rules_at(depth)),
{
    let mut i: usize = 1;
    assert(old(out)@ + rules_text(0) =~= old(out)@);
    while i < depth
        invariant
            1 <= i,
            i <= depth || depth == 0,
            depth == 0 ==> i == 1,
            out@ == old(out)@ + rules_text((i - 1) as nat),
        decreases depth - i,
    {
        out.append("│   ");
        assert((old(out)@ + rules_text((i - 1) as nat)) + "│   "@ =~= old(out)@ + rules_text(
            i as nat,
        ));
        i = i + 1;
    }
}

/// Writes the branch in front of a label: a corner for a last child, a tee
/// for any other.
pub fn branch(out: &mut String, last: bool)
    ensures
        final(out)@ == old(out)@ + branch_text(last),
{
    if last {
        out.append("└── ");
    } else {
        out.append("├── ");
    }
}

/// What is shown behind the value of a field: the byte range of its element
/// where ranges are shown, or that it stands at its default.
pub open spec fn origin_text(raw: Option<ElementTree>, show_raw: bool) -> Seq<char> {
    match raw {
        Some(element) => if show_raw {
            span_text(element)
        } else {
            Seq::empty()
        },
        None => " (default)"@,
    }
}

/// The line of a field at the depth `depth`.
#[verifier::opaque]
pub open spec fn field_line(
    depth: usize,
    last: bool,
    name: Seq<char>,
    value: Seq<char>,
    raw: Option<ElementTree>,
    show_raw: bool,
) -> Seq<char> {
    rules_text(rules_at(depth)) + branch_text(last) + name + ": "@ + value + origin_text(
        raw,
        show_raw,
    ) + "\n"@
}

/// The value of an optional element.
pub open spec fn tree_of_option(raw: Option<&ParsedElement>) -> Option<ElementTree> {
    match raw {
        Some(element) => Some(element@),
        None => None,
    }
}

/// Writes the line of the field `name` with the value `value`, written out;
/// `raw` is the element that holds the field, if any.
pub fn print_field(
    out: &mut String,
    depth: usize,
    last: bool,
    name: &str,
    value: &str,
    raw: Option<&ParsedElement>,
    show_raw: bool,
)
    ensures
        final(out)@ == old(out)@ + field_line(
            depth,
            last,
            name@,
            value@,
            tree_of_option(raw),
            show_raw,
        ),
{
    reveal(field_line);
    indent(out, depth);
    branch(out, last);
    out.append(name);
    out.append(": ");
    out.append(value);
    match raw {
        Some(element) => {
            if show_raw {
                let range: String = span(element);
                out.append(range.as_str());
            }
        },
        None => {
            out.append(" (default)");
        },
    }
    out.append("\n");
    assert(out@ =~= old(out)@ + field_line(
        depth,
        last,
        name@,
        value@,
        tree_of_option(raw),
        show_raw,
    ));
}

/// The element that holds an optional field, if any.
pub open spec fn holder(field: OptionalField<u64>) -> Option<ElementTree> {
    match field {
        OptionalField::Present(f) => Some(f.raw@),
        OptionalField::Default(_) => None,
    }
}

/// The value of an optional field, found or default.
pub open spec fn held(field: OptionalField<u64>) -> u64 {
    match field {
        OptionalField::Present(f) => f.value,
        OptionalField::Default(value) => value,
    }
}

/// The line of an integer field at the depth `depth`.
pub open spec fn integer_line(
    depth: usize,
    last: bool,
    name: Seq<char>,
    field: OptionalField<u64>,
    show_raw: bool,
) -> Seq<char> {
    field_line(depth, last, name, decimal_text(held(field) as nat), holder(field), show_raw)
}

/// Writes the line of the integer field `name`.
fn print_integer(
    out: &mut String,
    depth: usize,
    last: bool,
    name: &str,
    field: &OptionalField<u64>,
    show_raw: bool,
)
    ensures
        final(out)@ == old(out)@ + integer_line(depth, last, name@, *field, show_raw),
{
    let value: String = decimal(field.value() as u128);
    let raw: Option<&ParsedElement> = match field {
        OptionalField::Present(f) => Some(&f.raw),
        OptionalField::Default(_) => None,
    };
    print_field(out, depth, last, name, value.as_str(), raw, show_raw);
}

/// The line of a section at the depth `depth`.
#[verifier::opaque]
pub open spec fn section_line(
    depth: usize,
    last: bool,
    name: Seq<char>,
    raw: ElementTree,
    show_raw: bool,
) -> Seq<char> {
    rules_text(rules_at(depth)) + branch_text(last) + name + (if show_raw {
        span_text(raw)
    } else {
        Seq::empty()
    }) + "\n"@
}

/// Writes the line of the section `name` that `raw` holds.
fn print_section(
    out: &mut String,
    depth: usize,
    last: bool,
    name: &str,
    raw: &ParsedElement,
    show_raw: bool,
)
    ensures
        final(out)@ == old(out)@ + section_line(depth, last, name@, raw@, show_raw),
{
    reveal(section_line);
    indent(out, depth);
    branch(out, last);
    out.append(name);
    if show_raw {
        let range: String = span(raw);
        out.append(range.as_str());
    }
    out.append("\n");
    assert(out@ =~= old(out)@ + section_line(depth, last, name@, raw@, show_raw));
}

/// The lines of an EBML header at the depth `depth`: the header, and one
/// level below each of its five fields.
pub open spec fn header_text(depth: usize, last: bool, ebml: EbmlHeader, show_raw: bool) -> Seq<
    char,
> {
    let below = (depth + 1) as usize;
    section_line(depth, last, "EBML Header"@, ebml.raw@, show_raw) + field_line(
        below,
        false,
        "docType"@,
        debug_text(ebml.doctype.value@),
        Some(ebml.doctype.raw@),
        show_raw,
    ) + integer_line(below, false, "docTypeVersion"@, ebml.doctype_version, show_raw)
        + integer_line(below, false, "docTypeReadVersion"@, ebml.doctype_read_version, show_raw)
        + integer_line(below, false, "maxIDLength"@, ebml.max_id_length, show_raw) + integer_line(
        below,
        true,
        "maxSizeLength"@,
        ebml.max_size_length,
        show_raw,
    )
}

/// Writes the lines of the EBML header `ebml` at the depth `depth`, which
/// has to leave room for one level more.
pub fn print_ebml_header(out: &mut String, depth: usize, last: bool, ebml: &EbmlHeader, show_raw: bool)
    requires
        depth < usize::MAX,
    ensures
        final(out)@ == old(out)@ + header_text(depth, last, *ebml, show_raw),
{
    print_section(out, depth, last, "EBML Header", &ebml.raw, show_raw);
    let ghost below = (depth + 1) as usize;
    let ghost mut acc = section_line(depth, last, "EBML Header"@, ebml.raw@, show_raw);

    let doctype: String = debug_string(&ebml.doctype.value);
    print_field(
        out,
        depth + 1,
        false,
        "docType",
        doctype.as_str(),
        Some(&ebml.doctype.raw),
        show_raw,
    );
    proof {
        let line = field_line(
            below,
            false,
            "docType"@,
            debug_text(ebml.doctype.value@),
            Some(ebml.doctype.raw@),
            show_raw,
        );
        assert(out@ =~= old(out)@ + (acc + line));
        acc = acc + line;
    }
    print_integer(out, depth + 1, false, "docTypeVersion", &ebml.doctype_version, show_raw);
    proof {
        let line = integer_line(below, false, "docTypeVersion"@, ebml.doctype_version, show_raw);
        assert(out@ =~= old(out)@ + (acc + line));
        acc = acc + line;
    }
    print_integer(
        out,
        depth + 1,
        false,
        "docTypeReadVersion",
        &ebml.doctype_read_version,
        show_raw,
    );
    proof {
        let line = integer_line(
            below,
            false,
            "docTypeReadVersion"@,
            ebml.doctype_read_version,
            show_raw,
        );
        assert(out@ =~= old(out)@ + (acc + line));
        acc = acc + line;
    }
    print_integer(out, depth + 1, false, "maxIDLength", &ebml.max_id_length, show_raw);
    proof {
        let line = integer_line(below, false, "maxIDLength"@, ebml.max_id_length, show_raw);
        assert(out@ =~= old(out)@ + (acc + line));
        acc = acc + line;
    }
    print_integer(out, depth + 1, true, "maxSizeLength", &ebml.max_size_length, show_raw);
    proof {
        let line = integer_line(below, true, "maxSizeLength"@, ebml.max_size_length, show_raw);
        assert(out@ =~= old(out)@ + (acc + line));
        acc = acc + line;
        assert(acc == header_text(depth, last, *ebml, show_raw));
    }
}

/// The listing of a document: a title and the EBML header.
pub open spec fn document_text(doc: MatroskaDocument, show_bytes: bool) -> Seq<char> {
    "MatroskaDocument\n"@ + header_text(1, false, doc.ebml_header, show_bytes)
}

/// The document `doc` as an indented tree with every field of its EBML
/// header, and with the byte ranges of its elements where `show_bytes` is
/// set.
pub fn print_matroska_tree(doc: &MatroskaDocument, show_bytes: bool) -> (text: String)
    ensures
        text@ == document_text(*doc, show_bytes),
{
    let mut out: String = String::from_str("MatroskaDocument\n");
    print_ebml_header(&mut out, 1, false, &doc.ebml_header, show_bytes);
    out
}

} // verus!
