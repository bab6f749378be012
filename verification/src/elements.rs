//! The elements of a flow, as they reach the collector: every property is
//! already resolved against the styles in force at the element.

use vstd::prelude::*;
use crate::abs::Abs;
use crate::abs::Fr;
use crate::abs::Ratio;
use crate::abs::Rel;
use crate::frame::Content;
use crate::frame::Location;
use crate::frame::Span;
use crate::frame::Tag;
use crate::geom::Alignment;
use crate::geom::Axes;
use crate::geom::Dir;
use crate::geom::FixedAlignment;
use crate::geom::PlacementScope;
use crate::geom::Smart;
use crate::masthead::MastheadElem;
use crate::wrap::WrapElem;

verus! {

/// An amount of spacing: relative to the region, or a share of what is left.
#[derive(Clone, Copy, Debug, PartialEq, Eq, Hash)]
pub enum Spacing {
    Rel(Rel),
    Fr(Fr),
}

/// What it costs to leave a single line of a paragraph alone in a region.
/// A cost above zero asks for the line to be kept with its neighbour.
#[derive(Clone, Copy, Debug, PartialEq, Eq, Hash)]
pub struct Costs {
    /// For the last line, alone at the top of a region.
    pub widow: Ratio,
    /// For the first line, alone at the bottom of a region.
    pub orphan: Ratio,
}

impl Costs {
    pub fn widow(&self) -> (r: Ratio)
        ensures
            r == self.widow,
    {
        self.widow
    }

    pub fn orphan(&self) -> (r: Ratio)
        ensures
            r == self.orphan,
    {
        self.orphan
    }
}

/// Where a paragraph stands among its neighbours.
#[derive(Clone, Copy, Debug, PartialEq, Eq, Structural, Hash)]
pub enum ParSituation {
    /// The first element of the flow.
    First,
    /// Right after another paragraph.
    Consecutive,
    /// After something else.
    Other,
}

/// What kind of content a flow holds.
#[derive(Clone, Copy, Debug, PartialEq, Eq, Structural, Hash)]
pub enum FlowMode {
    /// The flow of a page.
    Root,
    /// Block-level content in a container.
    Block,
    /// Inline-level content in a container.
    Inline,
}

/// The styles that the lines of an inline flow share.
#[derive(Clone, Copy, Debug, PartialEq, Eq, Hash)]
pub struct LineStyle {
    pub leading: Abs,
    pub align: Axes<FixedAlignment>,
    pub costs: Costs,
}

/// Vertical spacing. A weakness of zero is strong spacing, which always
/// stays; the higher the weakness, the sooner the spacing gives way.
#[derive(Clone, Copy, Debug, PartialEq, Eq, Hash)]
pub struct VElem {
    pub amount: Spacing,
    pub weakness: u8,
}

/// A paragraph.
#[derive(Clone, Copy, Debug, PartialEq, Eq, Hash)]
pub struct ParElem {
    pub body: Content,
    /// The spacing above and below the paragraph.
    pub spacing: Abs,
    /// The spacing between two of its lines.
    pub leading: Abs,
    pub align: Axes<FixedAlignment>,
    pub costs: Costs,
    pub span: Span,
}

/// A block.
#[derive(Clone, Copy, Debug, PartialEq, Eq, Hash)]
pub struct BlockElem {
    pub body: Content,
    /// The spacing above the block; automatic spacing is that of paragraphs.
    pub above: Smart<Spacing>,
    /// The spacing below the block.
    pub below: Smart<Spacing>,
    /// The spacing of paragraphs at the block.
    pub par_spacing: Abs,
    /// Whether the block stays with the frame that follows it.
    pub sticky: bool,
    /// Whether the block can break across regions.
    pub breakable: bool,
    /// The share of the remaining height that the block takes, where its
    /// height is given as a fraction.
    pub height: Option<Fr>,
    pub align: Axes<FixedAlignment>,
    pub span: Span,
}

/// An element placed out of the flow: at a fixed position, or floating to
/// the top or bottom.
#[derive(Clone, Copy, Debug, PartialEq, Eq, Hash)]
pub struct PlaceElem {
    pub body: Content,
    pub alignment: Smart<Alignment>,
    pub scope: PlacementScope,
    pub float: bool,
    /// The space between a floating element and the flow.
    pub clearance: Abs,
    pub dx: Rel,
    pub dy: Rel,
    /// The direction of the text around the element.
    pub dir: Dir,
    pub span: Span,
    pub location: Option<Location>,
}

/// An element that has no place in a flow.
#[derive(Clone, Copy, Debug, PartialEq, Eq, Hash)]
pub struct Stray {
    pub name: &'static str,
    pub span: Span,
}

/// An element of a flow.
#[derive(Clone, Copy, Debug, PartialEq, Eq, Hash)]
pub enum Element {
    Tag(Tag),
    V(VElem),
    Par(ParElem),
    Block(BlockElem),
    Place(PlaceElem),
    Wrap(WrapElem),
    Masthead(MastheadElem),
    /// A barrier that floats do not cross.
    Flush,
    /// A column break; a weak one does nothing at the top of a region.
    Colbreak(bool),
    Pagebreak(Span),
    /// Anything else.
    Other(Stray),
}

impl Element {
    pub open spec fn spec_is_tag(&self) -> bool {
        *self is Tag
    }

    /// Whether text flows around the element.
    pub open spec fn spec_is_wrapping(&self) -> bool {
        *self is Wrap || *self is Masthead
    }

    pub fn is_tag(&self) -> (r: bool)
        ensures
            r == self.spec_is_tag(),
    {
        match self {
            Element::Tag(_) => true,
            _ => false,
        }
    }

    /// Whether text flows around the element.
    pub fn is_wrapping(&self) -> (r: bool)
        ensures
            r == self.spec_is_wrapping(),
    {
        match self {
            Element::Wrap(_) => true,
            Element::Masthead(_) => true,
            _ => false,
        }
    }
}

} // verus!
