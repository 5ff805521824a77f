//! Helpers for building text.

pub mod text;
pub mod tree_printer;
