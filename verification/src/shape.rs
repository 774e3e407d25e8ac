//! The closed tag classifying which edge-matching template produced a
//! figure; informational only, never consumed by the geometry.

use vstd::prelude::*;

verus! {

/// The edge-matching template class of a figure.
#[derive(Clone, Copy, Debug, PartialEq, Eq, Structural)]
pub enum TessellationShape {
    S,
    U,
    I,
    J,
}

impl Default for TessellationShape {
    /// The default template class.
    fn default() -> (r: TessellationShape)
        ensures
            r == TessellationShape::S,
    {
        TessellationShape::S
    }
}

} // verus!
