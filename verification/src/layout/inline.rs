//! The kinds of fragment that a line holds.

use vstd::prelude::*;

verus! {

/// What a fragment of a line is a piece of.
#[derive(Debug, Clone, Copy, PartialEq, Eq, Structural)]
pub enum InlineFragmentType {
    Text,
    InlineElement,
    InlineBlock,
    Image,
}

} // verus!
