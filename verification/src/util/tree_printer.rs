//! An indented tree listing, drawn with box characters.

use vstd::prelude::*;
use vstd::string::StringExecFns;

verus! {

/// `core::fmt::Error`, the error type of formatted writes. It is carried in
/// the results of the printing functions, which never fail: nothing is
/// claimed of its values.
#[verifier::external_type_specification]
#[verifier::external_body]
pub struct ExFmtError(core::fmt::Error);

/// Where in a tree the next line goes: for each ancestor of the node to
/// print, from the top, whether it was the last child of its parent.
pub struct TreePrinter {
    ancestors: Vec<bool>,
}

/// The columns in front of a node with the ancestors `ancestors`: blank
/// under an ancestor that was a last child, a rule under any other.
pub open spec fn indent_text(ancestors: Seq<bool>) -> Seq<char>
    decreases ancestors.len(),
{
    if ancestors.len() == 0 {
        Seq::empty()
    } else {
        indent_text(ancestors.drop_last()) + (if ancestors.last() {
            "    "@
        } else {
            "│   "@
        })
    }
}

/// The branch in front of a label: a corner for a last child, a tee for any
/// other.
pub open spec fn branch_text(last: bool) -> Seq<char> {
    if last {
        "└── "@
    } else {
        "├── "@
    }
}

/// The line of a node: indent, branch, label, line end.
pub open spec fn node_text(ancestors: Seq<bool>, last: bool, label: Seq<char>) -> Seq<char> {
    indent_text(ancestors) + branch_text(last) + label + "\n"@
}

impl TreePrinter {
    /// For each ancestor of the node to print, from the top, whether it was
    /// the last child of its parent.
    pub closed spec fn ancestors(&self) -> Seq<bool> {
        self.ancestors@
    }

    /// A printer for the nodes at the top of a tree.
    pub fn new() -> (p: Self)
        ensures
            p.ancestors() == Seq::<bool>::empty(),
    {
        TreePrinter { ancestors: Vec::new() }
    }

    /// Writes the columns in front of a node.
    pub fn indent(&self, out: &mut String)
        ensures
            final(out)@ == old(out)@ + indent_text(self.ancestors()),
    {
        let mut i: usize = 0;
        assert(self.ancestors@.subrange(0, 0) =~= Seq::<bool>::empty());
        assert(old(out)@ + Seq::<char>::empty() =~= old(out)@);
        while i < self.ancestors.len()
            invariant
                i <= self.ancestors@.len(),
                out@ == old(out)@ + indent_text(self.ancestors@.subrange(0, i as int)),
            decreases self.ancestors@.len() - i,
        {
            let ghost before = out@;
            let ghost done = self.ancestors@.subrange(0, i as int);
            let ghost next = self.ancestors@.subrange(0, i + 1);
            let is_last: bool = self.ancestors[i];
            if is_last {
                out.append("    ");
            } else {
                out.append("│   ");
            }
            proof {
                assert(next.drop_last() =~= done);
                assert(next.last() == is_last);
                let piece = if is_last {
                    "    "@
                } else {
                    "│   "@
                };
                assert((old(out)@ + indent_text(done)) + piece =~= old(out)@ + (indent_text(done)
                    + piece));
            }
            i = i + 1;
        }
        assert(self.ancestors@.subrange(0, self.ancestors@.len() as int) =~= self.ancestors@);
    }

    /// Writes the line of a node with the label `label`; `last` says whether
    /// it is the last child of its parent.
    pub fn node(&self, out: &mut String, last: bool, label: &str) -> (r: Result<
        (),
        core::fmt::Error,
    >)
        ensures
            r is Ok,
            final(out)@ == old(out)@ + node_text(self.ancestors(), last, label@),
    {
        self.indent(out);
        if last {
            out.append("└── ");
        } else {
            out.append("├── ");
        }
        out.append(label);
        out.append("\n");
        assert(out@ =~= old(out)@ + node_text(self.ancestors(), last, label@));
        Ok(())
    }

    /// The printer for the children of a node of this printer; `last` says
    /// whether that node is the last child of its parent.
    pub fn child_scope(&self, last: bool) -> (inner: Self)
        ensures
            inner.ancestors() == self.ancestors().push(last),
    {
        let mut ancestors: Vec<bool> = Vec::new();
        let mut i: usize = 0;
        while i < self.ancestors.len()
            invariant
                i <= self.ancestors@.len(),
                ancestors@ == self.ancestors@.subrange(0, i as int),
            decreases self.ancestors@.len() - i,
        {
            ancestors.push(self.ancestors[i]);
            assert(ancestors@ =~= self.ancestors@.subrange(0, i + 1));
            i = i + 1;
        }
        assert(self.ancestors@.subrange(0, self.ancestors@.len() as int) =~= self.ancestors@);
        ancestors.push(last);
        TreePrinter { ancestors }
    }
}

/// What can be printed as a part of a tree listing.
pub trait TreePrintable {
    /// The lines of the part under the ancestors `ancestors`; `last` says
    /// whether it is the last child of its parent, and `show_bytes` whether
    /// the byte ranges are shown. A part says here what its `print_tree`
    /// writes; one that says nothing is taken to write nothing.
    open spec fn tree_text(&self, ancestors: Seq<bool>, last: bool, show_bytes: bool) -> Seq<char> {
        Seq::empty()
    }

    /// Writes the lines of the part.
    fn print_tree(&self, out: &mut String, printer: &TreePrinter, last: bool, show_bytes: bool) -> (r:
        Result<(), core::fmt::Error>)
        ensures
            r is Ok,
            final(out)@ == old(out)@ + self.tree_text(printer.ancestors(), last, show_bytes),
    ;
}

} // verus!
