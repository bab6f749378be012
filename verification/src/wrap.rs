//! The wrap element: content set to one side, with text flowing around it.

use vstd::prelude::*;
use crate::abs::Abs;
use crate::cutout::CutoutSide;
use crate::frame::Content;
use crate::frame::Location;
use crate::frame::Span;
use crate::geom::Dir;
use crate::geom::OuterHAlignment;
use crate::geom::PlacementScope;

verus! {

/// Content placed to the side of the text that flows around it. Its width
/// is that of its body.
#[derive(Clone, Copy, Debug, PartialEq, Eq, Hash)]
pub struct WrapElem {
    /// The side on which the content stands.
    pub side: OuterHAlignment,
    /// The content.
    pub body: Content,
    /// The space kept free between the content and the text.
    pub clearance: Abs,
    /// The container that the content is placed against.
    pub scope: PlacementScope,
    /// The direction of the text around the element.
    pub dir: Dir,
    pub span: Span,
    pub location: Option<Location>,
}

/// The logical side that an alignment names. Start and end are logical
/// already; left and right are physical, and which of the two is the start
/// depends on the direction.
pub open spec fn spec_cutout_side(side: OuterHAlignment, dir: Dir) -> CutoutSide {
    match side {
        OuterHAlignment::Start => CutoutSide::Start,
        OuterHAlignment::End => CutoutSide::End,
        OuterHAlignment::Left => if dir.spec_is_positive() {
            CutoutSide::Start
        } else {
            CutoutSide::End
        },
        OuterHAlignment::Right => if dir.spec_is_positive() {
            CutoutSide::End
        } else {
            CutoutSide::Start
        },
    }
}

/// The logical side that an alignment names in text of the given direction.
pub fn outer_h_alignment_to_cutout_side(side: OuterHAlignment, dir: Dir) -> (r: CutoutSide)
    ensures
        r == spec_cutout_side(side, dir),
{
    match side {
        OuterHAlignment::Start => CutoutSide::Start,
        OuterHAlignment::End => CutoutSide::End,
        OuterHAlignment::Left => {
            if dir.is_positive() {
                CutoutSide::Start
            } else {
                CutoutSide::End
            }
        },
        OuterHAlignment::Right => {
            if dir.is_positive() {
                CutoutSide::End
            } else {
                CutoutSide::Start
            }
        },
    }
}

impl WrapElem {
    /// The logical side of the cutout that the element makes.
    pub fn cutout_side(&self, dir: Dir) -> (r: CutoutSide)
        ensures
            r == spec_cutout_side(self.side, dir),
    {
        outer_h_alignment_to_cutout_side(self.side, dir)
    }
}

} // verus!
