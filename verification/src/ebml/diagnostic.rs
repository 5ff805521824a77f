//! Notices that do not stop a decode.

use vstd::prelude::*;

verus! {

/// Something that a reader came across and stepped over.
#[derive(Debug, Clone, Copy, PartialEq, Eq, Structural)]
pub enum Diagnostic {
    /// A container that the reader knows holds an element that it does not
    /// know. The element was skipped.
    UnknownChild { parent: u64, id: u64 },
}

} // verus!
