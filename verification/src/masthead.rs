//! The masthead element: a column of given width beside the text.

use vstd::prelude::*;
use crate::abs::Abs;
use crate::cutout::CutoutSide;
use crate::frame::Content;
use crate::frame::Location;
use crate::frame::Span;
use crate::geom::Dir;
use crate::geom::OuterHAlignment;
use crate::geom::PlacementScope;
use crate::wrap::outer_h_alignment_to_cutout_side;
use crate::wrap::spec_cutout_side;

verus! {

/// What happens to a masthead that is taller than its region.
#[derive(Clone, Copy, Debug, Default, PartialEq, Eq, Structural, Hash)]
pub enum MastheadOverflow {
    /// What does not fit is cut off.
    #[default]
    Clip,
    /// The masthead goes on in the regions that follow.
    Paginate,
}

/// A column beside the text, of a width given with the element.
#[derive(Clone, Copy, Debug, PartialEq, Eq, Hash)]
pub struct MastheadElem {
    /// The side on which the column stands.
    pub side: OuterHAlignment,
    /// The width of the column.
    pub width: Abs,
    /// The content of the column.
    pub body: Content,
    /// The space kept free between the column and the text.
    pub clearance: Abs,
    /// The container that the column is placed against.
    pub scope: PlacementScope,
    /// What happens to content that is taller than the region.
    pub overflow: MastheadOverflow,
    /// The direction of the text around the element.
    pub dir: Dir,
    pub span: Span,
    pub location: Option<Location>,
}

impl MastheadElem {
    /// The logical side of the cutout that the element makes.
    pub fn cutout_side(&self, dir: Dir) -> (r: CutoutSide)
        ensures
            r == spec_cutout_side(self.side, dir),
    {
        outer_h_alignment_to_cutout_side(self.side, dir)
    }
}

} // verus!
