//! Sizes, directions, alignments and regions.

use vstd::prelude::*;
use crate::abs::Abs;
use crate::abs::Rel;

verus! {

/// A pair of values, one for each axis.
#[derive(Clone, Copy, Debug, PartialEq, Eq, Hash)]
pub struct Axes<T> {
    pub x: T,
    pub y: T,
}

impl<T> Axes<T> {
    pub fn new(x: T, y: T) -> (r: Axes<T>)
        ensures
            r.x == x,
            r.y == y,
    {
        Axes { x, y }
    }
}

impl<T: Copy> Axes<T> {
    /// The same value on both axes.
    pub fn splat(v: T) -> (r: Axes<T>)
        ensures
            r.x == v,
            r.y == v,
    {
        Axes { x: v, y: v }
    }
}

/// A width and a height.
pub type Size = Axes<Abs>;

/// A position.
pub type Point = Axes<Abs>;

pub open spec fn spec_size_zero() -> Size {
    Axes { x: Abs::spec_zero(), y: Abs::spec_zero() }
}

/// The size that is, on each axis, the smaller of the two.
pub open spec fn spec_size_min(a: Size, b: Size) -> Size {
    Axes { x: a.x.min_spec(b.x), y: a.y.min_spec(b.y) }
}

/// On each axis, `yes` where the flag is set and `no` where it is not.
pub open spec fn spec_select(flags: Axes<bool>, yes: Size, no: Size) -> Size {
    Axes { x: if flags.x { yes.x } else { no.x }, y: if flags.y { yes.y } else { no.y } }
}

pub fn size_zero() -> (r: Size)
    ensures
        r == spec_size_zero(),
{
    Axes { x: Abs::zero(), y: Abs::zero() }
}

pub fn size_is_zero(size: Size) -> (r: bool)
    ensures
        r == (size == spec_size_zero()),
{
    size.x.is_zero() && size.y.is_zero()
}

pub fn size_min(a: Size, b: Size) -> (r: Size)
    ensures
        r == spec_size_min(a, b),
{
    Axes { x: a.x.min(b.x), y: a.y.min(b.y) }
}

pub fn select(flags: Axes<bool>, yes: Size, no: Size) -> (r: Size)
    ensures
        r == spec_select(flags, yes, no),
{
    Axes { x: if flags.x { yes.x } else { no.x }, y: if flags.y { yes.y } else { no.y } }
}

/// The sum of two positions, axis by axis.
pub open spec fn spec_point_add(a: Point, b: Point) -> Point {
    Axes { x: a.x.add_spec(b.x), y: a.y.add_spec(b.y) }
}

pub fn point_add(a: Point, b: Point) -> (r: Point)
    ensures
        r == spec_point_add(a, b),
{
    Axes { x: a.x.plus(b.x), y: a.y.plus(b.y) }
}

/// A pair of relative lengths, each taken against the matching axis of a
/// size.
pub open spec fn spec_delta_to_point(delta: Axes<Rel>, size: Size) -> Point {
    Axes { x: delta.x.relative_to_spec(size.x), y: delta.y.relative_to_spec(size.y) }
}

pub fn delta_to_point(delta: Axes<Rel>, size: Size) -> (r: Point)
    ensures
        r == spec_delta_to_point(delta, size),
{
    Axes { x: delta.x.relative_to(size.x), y: delta.y.relative_to(size.y) }
}

/// The direction in which text or content runs.
#[derive(Clone, Copy, Debug, PartialEq, Eq, Structural, Hash)]
pub enum Dir {
    /// Left to right.
    LTR,
    /// Right to left.
    RTL,
    /// Top to bottom.
    TTB,
    /// Bottom to top.
    BTT,
}

impl Dir {
    pub open spec fn spec_is_positive(self) -> bool {
        self == Dir::LTR || self == Dir::TTB
    }

    /// Whether the direction runs along the growing coordinate.
    pub fn is_positive(self) -> (r: bool)
        ensures
            r == self.spec_is_positive(),
    {
        match self {
            Dir::LTR => true,
            Dir::TTB => true,
            Dir::RTL => false,
            Dir::BTT => false,
        }
    }
}

/// An alignment along one axis that no longer depends on the direction.
#[derive(Clone, Copy, Debug, PartialEq, Eq, Structural, Hash)]
pub enum FixedAlignment {
    Start,
    Center,
    End,
}

impl FixedAlignment {
    /// The order of the alignments: start, center, end.
    pub open spec fn rank(self) -> int {
        match self {
            FixedAlignment::Start => 0,
            FixedAlignment::Center => 1,
            FixedAlignment::End => 2,
        }
    }

    pub open spec fn max_spec(self, other: FixedAlignment) -> FixedAlignment {
        if self.rank() >= other.rank() {
            self
        } else {
            other
        }
    }

    /// Where an item lands in free space of the given extent.
    pub open spec fn position_spec(self, extent: Abs) -> Abs {
        match self {
            FixedAlignment::Start => Abs::spec_zero(),
            FixedAlignment::Center => extent.half_spec(),
            FixedAlignment::End => extent,
        }
    }

    /// The later of the two alignments.
    pub fn max(self, other: FixedAlignment) -> (r: FixedAlignment)
        ensures
            r == self.max_spec(other),
    {
        match (self, other) {
            (FixedAlignment::End, _) => self,
            (FixedAlignment::Center, FixedAlignment::End) => other,
            (FixedAlignment::Center, _) => self,
            (FixedAlignment::Start, FixedAlignment::Start) => self,
            (FixedAlignment::Start, _) => other,
        }
    }

    /// Where an item lands in free space of the given extent.
    pub fn position(self, extent: Abs) -> (r: Abs)
        ensures
            r == self.position_spec(extent),
    {
        match self {
            FixedAlignment::Start => Abs::zero(),
            FixedAlignment::Center => extent.half(),
            FixedAlignment::End => extent,
        }
    }
}

/// A horizontal alignment, logical or physical.
#[derive(Clone, Copy, Debug, PartialEq, Eq, Structural, Hash)]
pub enum HAlignment {
    Start,
    Left,
    Center,
    Right,
    End,
}

impl HAlignment {
    pub open spec fn fix_spec(self, dir: Dir) -> FixedAlignment {
        match self {
            HAlignment::Start => if dir.spec_is_positive() {
                FixedAlignment::Start
            } else {
                FixedAlignment::End
            },
            HAlignment::Left => FixedAlignment::Start,
            HAlignment::Center => FixedAlignment::Center,
            HAlignment::Right => FixedAlignment::End,
            HAlignment::End => if dir.spec_is_positive() {
                FixedAlignment::End
            } else {
                FixedAlignment::Start
            },
        }
    }

    /// The alignment once the text direction is known.
    pub fn fix(self, dir: Dir) -> (r: FixedAlignment)
        ensures
            r == self.fix_spec(dir),
    {
        match self {
            HAlignment::Start => if dir.is_positive() {
                FixedAlignment::Start
            } else {
                FixedAlignment::End
            },
            HAlignment::Left => FixedAlignment::Start,
            HAlignment::Center => FixedAlignment::Center,
            HAlignment::Right => FixedAlignment::End,
            HAlignment::End => if dir.is_positive() {
                FixedAlignment::End
            } else {
                FixedAlignment::Start
            },
        }
    }
}

/// A vertical alignment.
#[derive(Clone, Copy, Debug, PartialEq, Eq, Structural, Hash)]
pub enum VAlignment {
    Top,
    Horizon,
    Bottom,
}

impl VAlignment {
    pub open spec fn fix_spec(self) -> FixedAlignment {
        match self {
            VAlignment::Top => FixedAlignment::Start,
            VAlignment::Horizon => FixedAlignment::Center,
            VAlignment::Bottom => FixedAlignment::End,
        }
    }

    pub fn fix(self) -> (r: FixedAlignment)
        ensures
            r == self.fix_spec(),
    {
        match self {
            VAlignment::Top => FixedAlignment::Start,
            VAlignment::Horizon => FixedAlignment::Center,
            VAlignment::Bottom => FixedAlignment::End,
        }
    }
}

/// A horizontal alignment that names a side: never the center.
#[derive(Clone, Copy, Debug, PartialEq, Eq, Structural, Hash)]
pub enum OuterHAlignment {
    Start,
    Left,
    Right,
    End,
}

/// An alignment along one axis or along both.
#[derive(Clone, Copy, Debug, PartialEq, Eq, Structural, Hash)]
pub enum Alignment {
    H(HAlignment),
    V(VAlignment),
    Both(HAlignment, VAlignment),
}

impl Alignment {
    pub open spec fn x_spec(self) -> Option<HAlignment> {
        match self {
            Alignment::H(h) => Some(h),
            Alignment::V(_) => None,
            Alignment::Both(h, _) => Some(h),
        }
    }

    pub open spec fn y_spec(self) -> Option<VAlignment> {
        match self {
            Alignment::H(_) => None,
            Alignment::V(v) => Some(v),
            Alignment::Both(_, v) => Some(v),
        }
    }

    /// The horizontal part, if there is one.
    pub fn x(self) -> (r: Option<HAlignment>)
        ensures
            r == self.x_spec(),
    {
        match self {
            Alignment::H(h) => Some(h),
            Alignment::V(_) => None,
            Alignment::Both(h, _) => Some(h),
        }
    }

    /// The vertical part, if there is one.
    pub fn y(self) -> (r: Option<VAlignment>)
        ensures
            r == self.y_spec(),
    {
        match self {
            Alignment::H(_) => None,
            Alignment::V(v) => Some(v),
            Alignment::Both(_, v) => Some(v),
        }
    }
}

/// A value that is either chosen automatically or given.
#[derive(Clone, Copy, Debug, PartialEq, Eq, Hash)]
pub enum Smart<T> {
    Auto,
    Custom(T),
}

/// The container that a placed element is positioned against.
#[derive(Clone, Copy, Debug, PartialEq, Eq, Structural, Hash)]
pub enum PlacementScope {
    Column,
    Parent,
}

/// A single region to lay out into.
#[derive(Clone, Copy, Debug, PartialEq, Eq, Hash)]
pub struct Region {
    pub size: Size,
    pub expand: Axes<bool>,
}

impl Region {
    pub fn new(size: Size, expand: Axes<bool>) -> (r: Region)
        ensures
            r == (Region { size, expand }),
    {
        Region { size, expand }
    }
}

/// A sequence of regions to lay out into: the current one, the backlog of
/// heights that follow it, and the height of the last region, which repeats.
#[derive(Clone, Copy, Debug)]
pub struct Regions<'a> {
    /// The size that is left in the current region.
    pub size: Size,
    /// Whether the content should fill each axis.
    pub expand: Axes<bool>,
    /// The full height of the current region, for relative sizing.
    pub full: Abs,
    /// The heights of the regions that follow.
    pub backlog: &'a [Abs],
    /// The height of the regions after the backlog, if there are any.
    pub last: Option<Abs>,
}

impl<'a> Regions<'a> {
    pub open spec fn spec_base(&self) -> Size {
        Axes { x: self.size.x, y: self.full }
    }

    pub open spec fn spec_is_full(&self) -> bool {
        self.size.y.raw <= 0
    }

    pub open spec fn spec_may_progress(&self) -> bool {
        self.backlog@.len() > 0 || (self.last is Some && self.last->0 != self.size.y)
    }

    /// Whether a region follows the current one.
    pub open spec fn spec_has_next(&self) -> bool {
        self.backlog@.len() > 0 || self.last is Some
    }

    /// The height of the region that follows the current one.
    pub open spec fn spec_next_height(&self) -> Option<Abs> {
        if self.backlog@.len() > 0 {
            Some(self.backlog@[0])
        } else {
            self.last
        }
    }

    /// The size against which relative lengths are taken.
    pub fn base(&self) -> (r: Size)
        ensures
            r == self.spec_base(),
    {
        Axes { x: self.size.x, y: self.full }
    }

    /// Whether no height is left in the current region.
    pub fn is_full(&self) -> (r: bool)
        ensures
            r == self.spec_is_full(),
    {
        self.size.y.raw <= 0
    }

    /// Whether moving on to the next region can change anything: a backlog
    /// is left, or the last region differs in height from what is left here.
    pub fn may_progress(&self) -> (r: bool)
        ensures
            r == self.spec_may_progress(),
    {
        if self.backlog.len() > 0 {
            true
        } else {
            match self.last {
                Some(height) => height.raw != self.size.y.raw,
                None => false,
            }
        }
    }

    /// Whether a region follows the current one.
    pub fn has_next(&self) -> (r: bool)
        ensures
            r == self.spec_has_next(),
    {
        self.backlog.len() > 0 || self.last.is_some()
    }

    /// The height of the region that follows the current one.
    pub fn next_height(&self) -> (r: Option<Abs>)
        ensures
            r == self.spec_next_height(),
    {
        if self.backlog.len() > 0 {
            Some(self.backlog[0])
        } else {
            self.last
        }
    }
}

} // verus!
