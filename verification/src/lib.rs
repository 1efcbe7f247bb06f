//! A personal hierarchical to-do list library.
//!
//! Items form a tree: leaf entries (title plus optional date or date-time)
//! and sublists (title, optional date, ordered children). The library holds
//! the addressable nested-list tree with its path-addressed mutations
//! (insert, remove, move, automatic promotion and demotion), the
//! date-relative formatting and urgency classification, the recursive
//! stable sort of siblings by date, and the indented text rendering.

pub mod date;
pub mod fmt;
pub mod lists;
pub mod render;
pub mod sort;
pub mod tree;

use vstd::prelude::*;

verus! {

/// Name of the reserved default list; it always exists and cannot be
/// removed by the user-facing delete operation.
pub const DEFAULT_LIST: &'static str = "to-do";

} // verus!
