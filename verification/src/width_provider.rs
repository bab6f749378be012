//! The width that a paragraph's lines can use, asked for by how far down the
//! paragraph a line starts.

use vstd::prelude::*;
use vstd::std_specs::convert::FromSpecImpl;
use crate::abs::Abs;
use crate::cutout::RegionCutout;
use crate::cutout::WidthInfo;
use crate::cutout::spec_width_at;
use crate::cutout::width_at;
use crate::geom::Dir;

verus! {

/// A source of line widths. What it answers depends on nothing but the
/// provider and the height asked for.
pub trait WidthProvider {
    /// The width at a height, as the provider defines it.
    spec fn spec_width_at(&self, cumulative_height: Abs) -> WidthInfo;

    /// The widest that a line can ever be.
    spec fn spec_base_width(&self) -> Abs;

    /// Whether every height gets the same answer.
    spec fn spec_is_constant(&self) -> bool;

    /// The width for a line that starts `cumulative_height` below the top of
    /// the paragraph.
    fn width_at(&self, cumulative_height: Abs) -> (info: WidthInfo)
        ensures
            info == self.spec_width_at(cumulative_height),
    ;

    /// The widest that a line can ever be.
    fn base_width(&self) -> (width: Abs)
        ensures
            width == self.spec_base_width(),
    ;

    /// Whether every height gets the same answer.
    fn is_constant(&self) -> (constant: bool)
        ensures
            constant == self.spec_is_constant(),
    ;
}

/// The same width at every height.
#[derive(Clone, Copy, Debug)]
pub struct FixedWidth {
    pub width: Abs,
}

impl FixedWidth {
    pub fn new(width: Abs) -> (r: FixedWidth)
        ensures
            r.width == width,
    {
        FixedWidth { width }
    }
}

impl WidthProvider for FixedWidth {
    open spec fn spec_width_at(&self, cumulative_height: Abs) -> WidthInfo {
        WidthInfo::spec_full(self.width)
    }

    open spec fn spec_base_width(&self) -> Abs {
        self.width
    }

    open spec fn spec_is_constant(&self) -> bool {
        true
    }

    fn width_at(&self, cumulative_height: Abs) -> (info: WidthInfo) {
        WidthInfo::full(self.width)
    }

    fn base_width(&self) -> (width: Abs) {
        self.width
    }

    fn is_constant(&self) -> (constant: bool) {
        true
    }
}

impl From<Abs> for FixedWidth {
    fn from(width: Abs) -> (r: FixedWidth) {
        FixedWidth::new(width)
    }
}

impl FromSpecImpl<Abs> for FixedWidth {
    open spec fn obeys_from_spec() -> bool {
        true
    }

    open spec fn from_spec(width: Abs) -> FixedWidth {
        FixedWidth { width }
    }
}

/// The width of a region beside its cutouts, for a paragraph that starts
/// `y_offset` below the region's top.
#[derive(Clone, Copy, Debug)]
pub struct CutoutWidth<'a> {
    /// The width of the region without any cutout.
    pub region_width: Abs,
    /// The cutouts of the region.
    pub cutouts: &'a [RegionCutout],
    /// The height in the region at which the paragraph starts.
    pub y_offset: Abs,
    /// The direction of the text.
    pub dir: Dir,
}

impl<'a> CutoutWidth<'a> {
    pub fn new(region_width: Abs, cutouts: &'a [RegionCutout], y_offset: Abs, dir: Dir) -> (r:
        CutoutWidth<'a>)
        ensures
            r.region_width == region_width,
            r.cutouts@ == cutouts@,
            r.y_offset == y_offset,
            r.dir == dir,
    {
        CutoutWidth { region_width, cutouts, y_offset, dir }
    }

    /// Whether there is no cutout at all.
    pub fn is_empty(&self) -> (r: bool)
        ensures
            r == (self.cutouts@.len() == 0),
    {
        self.cutouts.len() == 0
    }
}

impl WidthProvider for CutoutWidth<'_> {
    /// The height is counted from the region's top by adding the paragraph's
    /// offset; the cutouts at that height decide.
    open spec fn spec_width_at(&self, cumulative_height: Abs) -> WidthInfo {
        spec_width_at(
            self.region_width,
            self.y_offset.add_spec(cumulative_height),
            self.cutouts@,
            self.dir,
        )
    }

    open spec fn spec_base_width(&self) -> Abs {
        self.region_width
    }

    open spec fn spec_is_constant(&self) -> bool {
        self.cutouts@.len() == 0
    }

    fn width_at(&self, cumulative_height: Abs) -> (info: WidthInfo) {
        if self.cutouts.len() == 0 {
            return WidthInfo::full(self.region_width.max(Abs::zero()));
        }
        let region_y = self.y_offset.plus(cumulative_height);
        width_at(self.region_width, region_y, self.cutouts, self.dir)
    }

    fn base_width(&self) -> (width: Abs) {
        self.region_width
    }

    fn is_constant(&self) -> (constant: bool) {
        self.cutouts.len() == 0
    }
}

} // verus!
