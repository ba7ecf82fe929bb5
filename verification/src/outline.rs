//! What the outline of a parsed file says of one declaration.

use crate::declaration::Identifier;
use std::ops::Range;
use vstd::prelude::*;

verus! {

/// One entry of a file's outline: a named declaration, the bytes it spans, the bytes of
/// its signature, and the entry that encloses it, by its place in the outline.
#[derive(Clone, Debug)]
pub struct OutlineDeclaration {
    pub parent_index: Option<usize>,
    pub identifier: Identifier,
    pub item_range: Range<usize>,
    pub signature_range: Range<usize>,
}

} // verus!
