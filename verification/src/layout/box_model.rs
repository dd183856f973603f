//! The kinds of box.

use vstd::prelude::*;

verus! {

/// How a box takes part in layout.
#[derive(Debug, Clone, Copy, PartialEq, Eq, Structural)]
pub enum BoxType {
    Block,
    Inline,
    InlineBlock,
    Anonymous,
    Text,
}

} // verus!
