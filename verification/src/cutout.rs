//! Cutouts: vertical zones on one side of a region that content must leave
//! free, and the width that is left beside them.

use vstd::prelude::*;
use crate::abs::Abs;
use crate::abs::lemma_sub_monotone;
use crate::geom::Dir;

verus! {

/// The side of a region that a cutout occupies, in logical terms.
#[derive(Clone, Copy, Debug, PartialEq, Eq, Structural, Hash)]
pub enum CutoutSide {
    /// Where lines start: left in left-to-right text.
    Start,
    /// Where lines end: right in left-to-right text.
    End,
}

impl CutoutSide {
    pub open spec fn spec_opposite(self) -> CutoutSide {
        match self {
            CutoutSide::Start => CutoutSide::End,
            CutoutSide::End => CutoutSide::Start,
        }
    }

    pub open spec fn spec_is_left(self, dir: Dir) -> bool {
        match self {
            CutoutSide::Start => dir != Dir::RTL,
            CutoutSide::End => dir == Dir::RTL,
        }
    }

    /// The other side.
    pub fn opposite(self) -> (r: CutoutSide)
        ensures
            r == self.spec_opposite(),
    {
        match self {
            CutoutSide::Start => CutoutSide::End,
            CutoutSide::End => CutoutSide::Start,
        }
    }

    /// Whether the side is the physical left in the given direction. In
    /// vertical directions the start side counts as left.
    pub fn is_left(self, dir: Dir) -> (r: bool)
        ensures
            r == self.spec_is_left(dir),
    {
        match (self, dir) {
            (CutoutSide::Start, Dir::RTL) => false,
            (CutoutSide::Start, _) => true,
            (CutoutSide::End, Dir::RTL) => true,
            (CutoutSide::End, _) => false,
        }
    }
}

/// A zone `[y_start, y_end)` of a region, measured from the region's top, in
/// which `width + clearance` is taken from one side.
#[derive(Clone, Copy, Debug, PartialEq, Eq, Structural, Hash)]
pub struct RegionCutout {
    /// The top of the zone.
    pub y_start: Abs,
    /// The bottom of the zone, which is no longer part of it.
    pub y_end: Abs,
    /// The side that the zone occupies.
    pub side: CutoutSide,
    /// The width of what occupies the zone.
    pub width: Abs,
    /// The space kept free between the zone and the content beside it.
    pub clearance: Abs,
}

impl RegionCutout {
    /// The top is not below the bottom, and neither the width nor the
    /// clearance is negative.
    pub open spec fn wf(self) -> bool {
        &&& self.y_start.raw <= self.y_end.raw
        &&& self.width.raw >= 0
        &&& self.clearance.raw >= 0
    }

    pub open spec fn spec_total_width(self) -> Abs {
        self.width.add_spec(self.clearance)
    }

    pub open spec fn spec_contains_y(self, y: Abs) -> bool {
        self.y_start.raw <= y.raw < self.y_end.raw
    }

    pub open spec fn spec_overlaps_range(self, y_start: Abs, y_end: Abs) -> bool {
        self.y_start.raw < y_end.raw && y_start.raw < self.y_end.raw
    }

    pub fn new(y_start: Abs, y_end: Abs, side: CutoutSide, width: Abs, clearance: Abs) -> (r:
        RegionCutout)
        requires
            y_start.raw <= y_end.raw,
            width.raw >= 0,
            clearance.raw >= 0,
        ensures
            r == (RegionCutout { y_start, y_end, side, width, clearance }),
            r.wf(),
    {
        RegionCutout { y_start, y_end, side, width, clearance }
    }

    /// What the cutout takes from the width: its own width and its clearance.
    pub fn total_width(self) -> (r: Abs)
        ensures
            r == self.spec_total_width(),
    {
        self.width.plus(self.clearance)
    }

    /// Whether `y` lies in the zone; the bottom does not.
    pub fn contains_y(self, y: Abs) -> (r: bool)
        ensures
            r == self.spec_contains_y(y),
    {
        y.raw >= self.y_start.raw && y.raw < self.y_end.raw
    }

    /// Whether any part of the zone lies in `[y_start, y_end)`.
    pub fn overlaps_range(self, y_start: Abs, y_end: Abs) -> (r: bool)
        ensures
            r == self.spec_overlaps_range(y_start, y_end),
    {
        self.y_start.raw < y_end.raw && y_start.raw < self.y_end.raw
    }

    /// The height of the zone.
    pub fn height(self) -> (r: Abs)
        ensures
            r == self.y_end.sub_spec(self.y_start),
    {
        self.y_end.minus(self.y_start)
    }
}

/// The width that is left at some height, and how far it is set in from the
/// two edges.
#[derive(Clone, Copy, Debug, PartialEq, Eq, Structural, Hash)]
pub struct WidthInfo {
    /// The width that content can use.
    pub available: Abs,
    /// The distance from the edge at which lines start.
    pub start_offset: Abs,
    /// The distance kept free at the edge at which lines end.
    pub end_offset: Abs,
}

impl WidthInfo {
    pub open spec fn spec_full(width: Abs) -> WidthInfo {
        WidthInfo { available: width, start_offset: Abs::spec_zero(), end_offset: Abs::spec_zero() }
    }

    /// The whole width, set in from neither edge.
    pub fn full(width: Abs) -> (r: WidthInfo)
        ensures
            r == WidthInfo::spec_full(width),
    {
        WidthInfo { available: width, start_offset: Abs::zero(), end_offset: Abs::zero() }
    }

    pub fn new(available: Abs, start_offset: Abs, end_offset: Abs) -> (r: WidthInfo)
        ensures
            r == (WidthInfo { available, start_offset, end_offset }),
    {
        WidthInfo { available, start_offset, end_offset }
    }

    /// Whether content of the given width has room.
    pub fn fits(self, width: Abs) -> (r: bool)
        ensures
            r == self.available.fits_spec(width),
    {
        self.available.fits(width)
    }

    /// Whether this is the whole of `region_width`, set in from neither edge.
    pub fn is_full(self, region_width: Abs) -> (r: bool)
        ensures
            r == (self == WidthInfo::spec_full(region_width)),
    {
        self.start_offset.approx_eq(Abs::zero()) && self.end_offset.approx_eq(Abs::zero())
            && self.available.approx_eq(region_width)
    }
}

/// The heights that a width is asked for: one height, or all of
/// `[y_start, y_end)`.
pub enum Extent {
    At(Abs),
    Range(Abs, Abs),
}

impl Extent {
    /// Whether a cutout takes width somewhere in the extent.
    pub open spec fn meets(self, cutout: RegionCutout) -> bool {
        match self {
            Extent::At(y) => cutout.spec_contains_y(y),
            Extent::Range(y_start, y_end) => cutout.spec_overlaps_range(y_start, y_end),
        }
    }
}

/// What the cutouts take from one side within an extent: the largest total
/// width among those on that side that meet the extent, and zero if there is
/// none. Cutouts on one side do not add up.
pub open spec fn reduction(cutouts: Seq<RegionCutout>, extent: Extent, side: CutoutSide) -> Abs
    decreases cutouts.len(),
{
    if cutouts.len() == 0 {
        Abs::spec_zero()
    } else {
        let before = reduction(cutouts.drop_last(), extent, side);
        let cutout = cutouts.last();
        if cutout.side == side && extent.meets(cutout) {
            before.max_spec(cutout.spec_total_width())
        } else {
            before
        }
    }
}

/// The width that is left of `region_width` within an extent: the two
/// sides' reductions are taken from it, it does not go below zero, and the
/// two offsets change places in right-to-left text.
pub open spec fn spec_width(
    region_width: Abs,
    extent: Extent,
    cutouts: Seq<RegionCutout>,
    dir: Dir,
) -> WidthInfo {
    let start = reduction(cutouts, extent, CutoutSide::Start);
    let end = reduction(cutouts, extent, CutoutSide::End);
    WidthInfo {
        available: region_width.sub_spec(start).sub_spec(end).max_spec(Abs::spec_zero()),
        start_offset: if dir == Dir::RTL {
            end
        } else {
            start
        },
        end_offset: if dir == Dir::RTL {
            start
        } else {
            end
        },
    }
}

pub open spec fn spec_width_at(region_width: Abs, y: Abs, cutouts: Seq<RegionCutout>, dir: Dir) -> WidthInfo {
    spec_width(region_width, Extent::At(y), cutouts, dir)
}

pub open spec fn spec_width_in_range(
    region_width: Abs,
    y_start: Abs,
    y_end: Abs,
    cutouts: Seq<RegionCutout>,
    dir: Dir,
) -> WidthInfo {
    spec_width(region_width, Extent::Range(y_start, y_end), cutouts, dir)
}

/// The reduction is the largest total width of a cutout that counts: it is
/// not negative, no such cutout takes more, and it is zero or the total
/// width of one of them.
pub proof fn lemma_reduction_is_largest(cutouts: Seq<RegionCutout>, extent: Extent, side: CutoutSide)
    ensures
        reduction(cutouts, extent, side).raw >= 0,
        forall|i: int|
            0 <= i < cutouts.len() && cutouts[i].side == side && extent.meets(cutouts[i])
                ==> #[trigger] cutouts[i].spec_total_width().raw <= reduction(
                cutouts,
                extent,
                side,
            ).raw,
        reduction(cutouts, extent, side) == Abs::spec_zero() || exists|i: int|
            0 <= i < cutouts.len() && cutouts[i].side == side && extent.meets(cutouts[i])
                && #[trigger] cutouts[i].spec_total_width() == reduction(cutouts, extent, side),
    decreases cutouts.len(),
{
    if cutouts.len() > 0 {
        let before = cutouts.drop_last();
        lemma_reduction_is_largest(before, extent, side);
        let r = reduction(cutouts, extent, side);
        let last = cutouts.len() - 1;
        assert forall|i: int|
            0 <= i < cutouts.len() && cutouts[i].side == side && extent.meets(cutouts[i])
                implies #[trigger] cutouts[i].spec_total_width().raw <= r.raw by {
            if i < last {
                assert(before[i] == cutouts[i]);
            }
        }
        if r != Abs::spec_zero() {
            if r == reduction(before, extent, side) {
                let i = choose|i: int|
                    0 <= i < before.len() && before[i].side == side && extent.meets(before[i])
                        && #[trigger] before[i].spec_total_width() == r;
                assert(cutouts[i] == before[i]);
                assert(cutouts[i].spec_total_width() == r);
            } else {
                assert(cutouts[last].spec_total_width() == r);
            }
        }
    }
}

/// One more cutout, wherever it is put among the others, never takes less
/// from a side.
pub proof fn lemma_reduction_grows(
    cutouts: Seq<RegionCutout>,
    at: int,
    cutout: RegionCutout,
    extent: Extent,
    side: CutoutSide,
)
    requires
        0 <= at <= cutouts.len(),
    ensures
        reduction(cutouts, extent, side).raw <= reduction(cutouts.insert(at, cutout), extent, side).raw,
{
    let more = cutouts.insert(at, cutout);
    lemma_reduction_is_largest(cutouts, extent, side);
    lemma_reduction_is_largest(more, extent, side);
    if reduction(cutouts, extent, side) != Abs::spec_zero() {
        let j = choose|j: int|
            0 <= j < cutouts.len() && cutouts[j].side == side && extent.meets(cutouts[j])
                && #[trigger] cutouts[j].spec_total_width() == reduction(cutouts, extent, side);
        let k = if j < at {
            j
        } else {
            j + 1
        };
        assert(more[k] == cutouts[j]);
        assert(more[k].spec_total_width().raw <= reduction(more, extent, side).raw);
    }
}

/// The available width never grows when a cutout is added, wherever it is
/// put among the others.
pub proof fn lemma_width_monotone(
    region_width: Abs,
    extent: Extent,
    cutouts: Seq<RegionCutout>,
    at: int,
    cutout: RegionCutout,
    dir: Dir,
)
    requires
        0 <= at <= cutouts.len(),
    ensures
        spec_width(region_width, extent, cutouts.insert(at, cutout), dir).available.raw <= spec_width(
            region_width,
            extent,
            cutouts,
            dir,
        ).available.raw,
{
    let more = cutouts.insert(at, cutout);
    lemma_reduction_grows(cutouts, at, cutout, extent, CutoutSide::Start);
    lemma_reduction_grows(cutouts, at, cutout, extent, CutoutSide::End);
    lemma_reduction_is_largest(more, extent, CutoutSide::Start);
    lemma_reduction_is_largest(more, extent, CutoutSide::End);
    let s0 = reduction(cutouts, extent, CutoutSide::Start);
    let e0 = reduction(cutouts, extent, CutoutSide::End);
    let s1 = reduction(more, extent, CutoutSide::Start);
    let e1 = reduction(more, extent, CutoutSide::End);
    lemma_sub_monotone(region_width, s1, region_width, s0);
    lemma_sub_monotone(region_width.sub_spec(s1), e1, region_width.sub_spec(s0), e0);
}

fn width_within(region_width: Abs, extent: &Extent, cutouts: &[RegionCutout], dir: Dir) -> (info:
    WidthInfo)
    ensures
        info == spec_width(region_width, *extent, cutouts@, dir),
{
    if cutouts.len() == 0 {
        return WidthInfo::full(region_width.max(Abs::zero()));
    }
    let mut start_reduction = Abs::zero();
    let mut end_reduction = Abs::zero();
    let mut i: usize = 0;
    while i < cutouts.len()
        invariant
            i <= cutouts.len(),
            start_reduction == reduction(cutouts@.take(i as int), *extent, CutoutSide::Start),
            end_reduction == reduction(cutouts@.take(i as int), *extent, CutoutSide::End),
        decreases cutouts.len() - i,
    {
        let cutout = cutouts[i];
        let active = match extent {
            Extent::At(y) => cutout.contains_y(*y),
            Extent::Range(y_start, y_end) => cutout.overlaps_range(*y_start, *y_end),
        };
        proof {
            assert(cutouts@.take(i + 1).drop_last() == cutouts@.take(i as int));
        }
        if active {
            let by = cutout.total_width();
            match cutout.side {
                CutoutSide::Start => {
                    start_reduction.set_max(by);
                },
                CutoutSide::End => {
                    end_reduction.set_max(by);
                },
            }
        }
        i += 1;
    }
    proof {
        assert(cutouts@.take(i as int) == cutouts@);
    }
    let available = region_width.minus(start_reduction).minus(end_reduction).max(Abs::zero());
    let (start_offset, end_offset) = match dir {
        Dir::RTL => (end_reduction, start_reduction),
        _ => (start_reduction, end_reduction),
    };
    WidthInfo::new(available, start_offset, end_offset)
}

/// The width that is left at the height `y`.
pub fn width_at(region_width: Abs, y: Abs, cutouts: &[RegionCutout], dir: Dir) -> (info: WidthInfo)
    ensures
        info == spec_width_at(region_width, y, cutouts@, dir),
{
    width_within(region_width, &Extent::At(y), cutouts, dir)
}

/// The narrowest width that is left anywhere in `[y_start, y_end)`.
pub fn width_in_range(
    region_width: Abs,
    y_start: Abs,
    y_end: Abs,
    cutouts: &[RegionCutout],
    dir: Dir,
) -> (info: WidthInfo)
    ensures
        info == spec_width_in_range(region_width, y_start, y_end, cutouts@, dir),
{
    width_within(region_width, &Extent::Range(y_start, y_end), cutouts, dir)
}

/// The cutouts that meet an extent, in their order.
pub open spec fn meeting(cutouts: Seq<RegionCutout>, extent: Extent) -> Seq<RegionCutout>
    decreases cutouts.len(),
{
    if cutouts.len() == 0 {
        Seq::empty()
    } else if extent.meets(cutouts.last()) {
        meeting(cutouts.drop_last(), extent).push(cutouts.last())
    } else {
        meeting(cutouts.drop_last(), extent)
    }
}

fn cutouts_meeting(cutouts: &[RegionCutout], extent: &Extent) -> (found: Vec<RegionCutout>)
    ensures
        found@ == meeting(cutouts@, *extent),
{
    let mut found: Vec<RegionCutout> = Vec::new();
    let mut i: usize = 0;
    while i < cutouts.len()
        invariant
            i <= cutouts.len(),
            found@ == meeting(cutouts@.take(i as int), *extent),
        decreases cutouts.len() - i,
    {
        let cutout = cutouts[i];
        let active = match extent {
            Extent::At(y) => cutout.contains_y(*y),
            Extent::Range(y_start, y_end) => cutout.overlaps_range(*y_start, *y_end),
        };
        proof {
            assert(cutouts@.take(i + 1).drop_last() == cutouts@.take(i as int));
        }
        if active {
            found.push(cutout);
        }
        i += 1;
    }
    proof {
        assert(cutouts@.take(i as int) == cutouts@);
    }
    found
}

/// The cutouts whose zone holds the height `y`, in their order.
pub fn cutouts_at_y(cutouts: &[RegionCutout], y: Abs) -> (found: Vec<RegionCutout>)
    ensures
        found@ == meeting(cutouts@, Extent::At(y)),
{
    cutouts_meeting(cutouts, &Extent::At(y))
}

/// The cutouts whose zone reaches into `[y_start, y_end)`, in their order.
pub fn cutouts_in_range(cutouts: &[RegionCutout], y_start: Abs, y_end: Abs) -> (found: Vec<
    RegionCutout,
>)
    ensures
        found@ == meeting(cutouts@, Extent::Range(y_start, y_end)),
{
    cutouts_meeting(cutouts, &Extent::Range(y_start, y_end))
}

} // verus!
