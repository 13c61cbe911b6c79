//! Which dimensions a drag on a floating card's border resizes.
use vstd::prelude::*;

verus! {

/// Which border of a floating card a drag-resize grabs.
#[derive(Clone, Copy, Debug, PartialEq, Eq, Structural)]
pub enum ResizeEdge {
    /// Drag the right edge: width only.
    Right,
    /// Drag the bottom edge: height only.
    Bottom,
    /// Drag the bottom-right corner: both axes.
    Corner,
}

impl ResizeEdge {
    /// `(adjust_width, adjust_height)` — which axes this grab resizes.
    pub fn axes(self) -> (r: (bool, bool))
        ensures
            r == match self {
                ResizeEdge::Right => (true, false),
                ResizeEdge::Bottom => (false, true),
                ResizeEdge::Corner => (true, true),
            },
    {
        match self {
            ResizeEdge::Right => (true, false),
            ResizeEdge::Bottom => (false, true),
            ResizeEdge::Corner => (true, true),
        }
    }
}

} // verus!
