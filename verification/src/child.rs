//! The prepared children of a flow: what the collector makes of the
//! elements, and what the distributor places region by region.

use vstd::prelude::*;
use crate::abs::Abs;
use crate::abs::Fr;
use crate::abs::Rel;
use crate::cell::CachedCell;
use crate::cell::Fingerprint;
use crate::cell::Slot;
use crate::cell::hash128;
use crate::cell::regions_key;
use crate::cutout::CutoutSide;
use crate::cutout::RegionCutout;
use crate::diag::ErrorKind;
use crate::diag::SourceError;
use crate::elements::BlockElem;
use crate::elements::Costs;
use crate::elements::ParElem;
use crate::elements::ParSituation;
use crate::elements::PlaceElem;
use crate::engine::Engine;
use crate::engine::Fragment;
use crate::engine::InlineContext;
use crate::engine::Locator;
use crate::frame::Frame;
use crate::frame::Location;
use crate::frame::Span;
use crate::frame::Tag;
use crate::geom::Alignment;
use crate::geom::Axes;
use crate::geom::FixedAlignment;
use crate::geom::HAlignment;
use crate::geom::PlacementScope;
use crate::geom::Region;
use crate::geom::Regions;
use crate::geom::Size;
use crate::geom::Smart;
use crate::geom::VAlignment;
use crate::masthead::MastheadElem;
use crate::wrap::WrapElem;

verus! {

/// A prepared child of a flow. The larger kinds are boxed, so that a child
/// stays small.
#[derive(Debug)]
pub enum Child {
    /// An introspection tag.
    Tag(Tag),
    /// Relative spacing and its weakness.
    Rel(Rel, u8),
    /// Fractional spacing and its weakness.
    Fr(Fr, u8),
    /// A line of a paragraph that is laid out already.
    Line(Box<LineChild>),
    /// A paragraph that is laid out only when its region and the cutouts
    /// there are known.
    Par(Box<ParChild>),
    /// A block that does not break.
    Single(Box<SingleChild>),
    /// A block that can break across regions.
    Multi(Box<MultiChild>),
    /// An element placed out of the flow.
    Placed(Box<PlacedChild>),
    /// Content to the side, with text flowing around it.
    Wrap(Box<WrapChild>),
    /// A column of given width to the side, with text flowing around it.
    Masthead(Box<MastheadChild>),
    /// A barrier that floats do not cross.
    Flush,
    /// A column break; the flag says whether it is weak.
    Break(bool),
}

/// A line of a paragraph. `need` is the height that has to be free for the
/// line to be placed: that of the line and of the lines it must not be
/// parted from.
#[derive(Clone, Copy, Debug)]
pub struct LineChild {
    pub frame: Frame,
    pub align: Axes<FixedAlignment>,
    pub need: Abs,
}

/// A paragraph whose layout is put off until it is distributed.
#[derive(Clone, Copy, Debug)]
pub struct ParChild {
    pub elem: ParElem,
    pub locator: Locator,
    pub situation: ParSituation,
    pub base: Size,
    pub expand: bool,
    /// The spacing above and below the paragraph.
    pub spacing: Rel,
    /// The spacing between two lines.
    pub leading: Abs,
    pub align: Axes<FixedAlignment>,
    pub costs: Costs,
}

impl ParChild {
    /// What the engine is told of the cutouts: nothing where there are
    /// none, else the cutouts and the height at which the paragraph starts.
    pub fn context<'c>(cutouts: &'c [RegionCutout], y_offset: Abs) -> (context: Option<
        InlineContext<'c>,
    >)
        ensures
            context is None <==> cutouts@.len() == 0,
            context is Some ==> context->0.cutouts@ == cutouts@ && context->0.y_offset == y_offset,
    {
        if cutouts.len() == 0 {
            None
        } else {
            Some(InlineContext::new(cutouts, y_offset))
        }
    }

    /// Has the engine break the paragraph into lines beside the cutouts,
    /// for a paragraph that starts `y_offset` below the region's top.
    pub fn layout<E: Engine>(&self, engine: &mut E, cutouts: &[RegionCutout], y_offset: Abs) -> Result<
        Vec<Frame>,
        SourceError,
    > {
        let context = ParChild::context(cutouts, y_offset);
        engine.layout_par_with_context(
            &self.elem,
            self.locator,
            self.base,
            self.expand,
            self.situation,
            context,
        )
    }
}

/// The region that a block is laid out into: the block fills the height
/// only where it is the only child of its flow.
pub open spec fn spec_block_region(region: Region, alone: bool) -> Region {
    Region { size: region.size, expand: Axes { x: region.expand.x, y: region.expand.y && alone } }
}

pub fn block_region(region: Region, alone: bool) -> (r: Region)
    ensures
        r == spec_block_region(region, alone),
{
    Region { size: region.size, expand: Axes { x: region.expand.x, y: region.expand.y && alone } }
}

/// The regions that a breakable block is laid out into: the block fills
/// the height only where it is the only child of its flow.
pub open spec fn spec_block_regions<'a>(regions: Regions<'a>, alone: bool) -> Regions<'a> {
    Regions {
        size: regions.size,
        expand: Axes { x: regions.expand.x, y: regions.expand.y && alone },
        full: regions.full,
        backlog: regions.backlog,
        last: regions.last,
    }
}

pub fn block_regions<'a>(regions: Regions<'a>, alone: bool) -> (r: Regions<'a>)
    ensures
        r == spec_block_regions(regions, alone),
{
    Regions {
        size: regions.size,
        expand: Axes { x: regions.expand.x, y: regions.expand.y && alone },
        full: regions.full,
        backlog: regions.backlog,
        last: regions.last,
    }
}

/// A block that does not break.
#[derive(Debug)]
pub struct SingleChild {
    pub align: Axes<FixedAlignment>,
    pub sticky: bool,
    /// Whether the block is the only child of its flow.
    pub alone: bool,
    /// The share of the remaining height that the block takes, where its
    /// height is given as a fraction.
    pub fr: Option<Fr>,
    pub elem: BlockElem,
    pub locator: Locator,
    pub cell: CachedCell<Result<Frame, SourceError>>,
}

impl SingleChild {
    /// The child with another cell.
    pub open spec fn with_cell(self, cell: CachedCell<Result<Frame, SourceError>>) -> SingleChild {
        SingleChild {
            align: self.align,
            sticky: self.sticky,
            alone: self.alone,
            fr: self.fr,
            elem: self.elem,
            locator: self.locator,
            cell,
        }
    }

    /// The block's frame for a region. What the cell holds for the region
    /// is handed out as it is; otherwise the engine lays the block out, and
    /// the cell keeps its answer, whether frame or error.
    pub fn layout<E: Engine>(&mut self, engine: &mut E, region: Region) -> (r: Result<
        Frame,
        SourceError,
    >)
        ensures
            old(self).cell.holds(hash128(region.key_bytes())) ==> *final(self) == *old(self) && r
                == old(self).cell.slot->0.value,
            !old(self).cell.holds(hash128(region.key_bytes())) ==> *final(self) == old(self).with_cell(
                CachedCell { slot: Some(Slot { key: hash128(region.key_bytes()), value: r }) },
            ),
    {
        let key = CachedCell::<Result<Frame, SourceError>>::key_of(&region);
        match self.cell.get(key) {
            Some(known) => {
                return *known;
            },
            None => {},
        }
        let out = engine.layout_single_block(
            &self.elem,
            self.locator,
            block_region(region, self.alone),
        );
        self.cell.put(key, out);
        out
    }
}

/// A block that can break across regions.
#[derive(Debug)]
pub struct MultiChild {
    pub align: Axes<FixedAlignment>,
    pub sticky: bool,
    /// Whether the block is the only child of its flow.
    pub alone: bool,
    pub elem: BlockElem,
    pub locator: Locator,
    pub cell: CachedCell<Result<Fragment, SourceError>>,
}

/// What is left of a breakable block after the regions it has been placed
/// in.
#[derive(Debug)]
pub struct MultiSpill {
    /// Whether any frame of the block, placed or not, holds something.
    pub exist_non_empty_frame: bool,
    /// Which child the block is.
    pub multi: usize,
    /// The height that was left in the region in which the block began.
    pub first: Abs,
    /// The full height of that region.
    pub full: Abs,
    /// The heights of the regions that the block went on in.
    pub backlog: Vec<Abs>,
    /// The least number of region heights that the block is laid out with
    /// again. It never goes down.
    pub min_backlog_len: usize,
}

/// A spill as a value.
pub struct MultiSpillView {
    pub exist_non_empty_frame: bool,
    pub multi: usize,
    pub first: Abs,
    pub full: Abs,
    pub backlog: Seq<Abs>,
    pub min_backlog_len: usize,
}

impl View for MultiSpill {
    type V = MultiSpillView;

    open spec fn view(&self) -> MultiSpillView {
        MultiSpillView {
            exist_non_empty_frame: self.exist_non_empty_frame,
            multi: self.multi,
            first: self.first,
            full: self.full,
            backlog: self.backlog@,
            min_backlog_len: self.min_backlog_len,
        }
    }
}

/// The kind of a child.
#[derive(Clone, Copy, Debug, PartialEq, Eq, Structural, Hash)]
pub enum ChildKind {
    Tag,
    Rel,
    Fr,
    Line,
    Par,
    Single,
    Multi,
    Placed,
    Wrap,
    Masthead,
    Flush,
    Break,
}

impl Child {
    pub open spec fn spec_kind(&self) -> ChildKind {
        match self {
            Child::Tag(_) => ChildKind::Tag,
            Child::Rel(_, _) => ChildKind::Rel,
            Child::Fr(_, _) => ChildKind::Fr,
            Child::Line(_) => ChildKind::Line,
            Child::Par(_) => ChildKind::Par,
            Child::Single(_) => ChildKind::Single,
            Child::Multi(_) => ChildKind::Multi,
            Child::Placed(_) => ChildKind::Placed,
            Child::Wrap(_) => ChildKind::Wrap,
            Child::Masthead(_) => ChildKind::Masthead,
            Child::Flush => ChildKind::Flush,
            Child::Break(_) => ChildKind::Break,
        }
    }

    pub fn kind(&self) -> (r: ChildKind)
        ensures
            r == self.spec_kind(),
    {
        match self {
            Child::Tag(_) => ChildKind::Tag,
            Child::Rel(_, _) => ChildKind::Rel,
            Child::Fr(_, _) => ChildKind::Fr,
            Child::Line(_) => ChildKind::Line,
            Child::Par(_) => ChildKind::Par,
            Child::Single(_) => ChildKind::Single,
            Child::Multi(_) => ChildKind::Multi,
            Child::Placed(_) => ChildKind::Placed,
            Child::Wrap(_) => ChildKind::Wrap,
            Child::Masthead(_) => ChildKind::Masthead,
            Child::Flush => ChildKind::Flush,
            Child::Break(_) => ChildKind::Break,
        }
    }
}

/// The kinds of a list of children, one for one.
pub open spec fn kinds(children: Seq<Child>) -> Seq<ChildKind> {
    Seq::new(children.len(), |i: int| children[i].spec_kind())
}

/// Whether one of the frames holds something.
pub open spec fn any_non_empty(frames: Seq<Frame>) -> bool {
    exists|i: int| 0 <= i < frames.len() && !(#[trigger] frames[i]).spec_is_empty()
}

/// The regions beyond the first with which a spilled block is laid out
/// again: trailing heights that equal the height of the last region are
/// dropped, but no more than down to `floor` heights.
pub open spec fn trimmed(backlog: Seq<Abs>, floor: nat, last: Option<Abs>) -> Seq<Abs>
    decreases backlog.len(),
{
    if backlog.len() > floor && last == Some(backlog.last()) {
        trimmed(backlog.drop_last(), floor, last)
    } else {
        backlog
    }
}

/// Copies a list of heights.
pub fn copy_heights(heights: &Vec<Abs>) -> (copy: Vec<Abs>)
    ensures
        copy@ == heights@,
{
    let copy = heights.clone();
    assert(copy@ =~= heights@);
    copy
}

impl MultiChild {
    pub open spec fn with_cell(self, cell: CachedCell<Result<Fragment, SourceError>>) -> MultiChild {
        MultiChild {
            align: self.align,
            sticky: self.sticky,
            alone: self.alone,
            elem: self.elem,
            locator: self.locator,
            cell,
        }
    }

    /// Everything but the cell is as in `before`.
    pub open spec fn same_block(&self, before: &MultiChild) -> bool {
        &&& self.align == before.align
        &&& self.sticky == before.sticky
        &&& self.alone == before.alone
        &&& self.elem == before.elem
        &&& self.locator == before.locator
    }

    /// The frame for the current region and, where the block goes on, the
    /// spill for the regions after it.
    pub open spec fn spec_split(frames: Seq<Frame>, regions: Regions<'_>, index: usize) -> (
        Frame,
        Option<MultiSpillView>,
    ) {
        (
            frames[0],
            if frames.len() > 1 {
                Some(
                    MultiSpillView {
                        exist_non_empty_frame: any_non_empty(frames),
                        multi: index,
                        first: regions.size.y,
                        full: regions.full,
                        backlog: Seq::empty(),
                        min_backlog_len: regions.backlog@.len() as usize,
                    },
                )
            } else {
                None
            },
        )
    }

    /// Parts a fresh fragment into the frame for the current region and the
    /// spill.
    pub fn split(fragment: &Fragment, regions: &Regions<'_>, index: usize) -> (r: (
        Frame,
        Option<MultiSpill>,
    ))
        ensures
            fragment@.len() > 0,
            r.0 == MultiChild::spec_split(fragment@, *regions, index).0,
            r.1 is Some == MultiChild::spec_split(fragment@, *regions, index).1 is Some,
            r.1 is Some ==> r.1->0@ == MultiChild::spec_split(fragment@, *regions, index).1->0,
    {
        let len = fragment.len();
        let mut exist_non_empty_frame = false;
        let mut i: usize = 0;
        while i < len
            invariant
                len == fragment@.len(),
                i <= len,
                exist_non_empty_frame == any_non_empty(fragment@.take(i as int)),
            decreases len - i,
        {
            let frame = fragment.get(i);
            proof {
                let before = fragment@.take(i as int);
                let after = fragment@.take(i + 1);
                assert(after[i as int] == fragment@[i as int]);
                if any_non_empty(before) {
                    let k = choose|k: int| 0 <= k < before.len() && !(#[trigger] before[k]).spec_is_empty();
                    assert(after[k] == before[k]);
                }
                if any_non_empty(after) && frame.spec_is_empty() {
                    let k = choose|k: int| 0 <= k < after.len() && !(#[trigger] after[k]).spec_is_empty();
                    assert(before[k] == after[k]);
                }
            }
            if !frame.is_empty() {
                exist_non_empty_frame = true;
            }
            i += 1;
        }
        proof {
            assert(fragment@.take(len as int) == fragment@);
        }
        let frame = fragment.first();
        let spill = if len > 1 {
            Some(
                MultiSpill {
                    exist_non_empty_frame,
                    multi: index,
                    first: regions.size.y,
                    full: regions.full,
                    backlog: Vec::new(),
                    min_backlog_len: regions.backlog.len(),
                },
            )
        } else {
            None
        };
        proof {
            if spill is Some {
                assert(spill->0@.backlog =~= Seq::<Abs>::empty());
            }
        }
        (frame, spill)
    }

    /// The block's frames for a run of regions. What the cell holds for
    /// the regions is handed out as it is; otherwise the engine lays the
    /// block out, and the cell keeps its answer, whether frames or error.
    pub fn layout_full<E: Engine>(&mut self, engine: &mut E, regions: Regions<'_>) -> (r: Result<
        &Fragment,
        SourceError,
    >)
        ensures
            final(self).same_block(old(self)),
            old(self).cell.holds(hash128(regions.key_bytes())) ==> *final(self) == *old(self),
            final(self).cell.holds(hash128(regions.key_bytes())),
            match r {
                Ok(fragment) => final(self).cell.slot->0.value == Ok::<Fragment, SourceError>(
                    *fragment,
                ),
                Err(error) => final(self).cell.slot->0.value == Err::<Fragment, SourceError>(error),
            },
    {
        let key = CachedCell::<Result<Fragment, SourceError>>::key_of(&regions);
        let known = self.cell.get(key).is_some();
        if !known {
            let pod = block_regions(regions, self.alone);
            let out = engine.layout_multi_block(&self.elem, self.locator, pod);
            self.cell.put(key, out);
        }
        match &self.cell.slot {
            Some(slot) => match &slot.value {
                Ok(fragment) => Ok(fragment),
                Err(error) => Err(*error),
            },
            None => unreached(),
        }
    }

    /// Lays the block out into the regions and parts the result into the
    /// frame for the current region and the spill. `index` says which child
    /// the block is. Only an error of the engine makes this fail.
    pub fn layout<E: Engine>(&mut self, engine: &mut E, regions: Regions<'_>, index: usize) -> (r:
        Result<(Frame, Option<MultiSpill>), SourceError>)
        ensures
            final(self).same_block(old(self)),
            r matches Ok(pair) ==> {
                &&& final(self).cell.slot is Some
                &&& final(self).cell.slot->0.value is Ok
                &&& pair.0 == MultiChild::spec_split(
                    final(self).cell.slot->0.value->Ok_0@,
                    regions,
                    index,
                ).0
                &&& pair.1 is Some == MultiChild::spec_split(
                    final(self).cell.slot->0.value->Ok_0@,
                    regions,
                    index,
                ).1 is Some
                &&& pair.1 is Some ==> pair.1->0@ == MultiChild::spec_split(
                    final(self).cell.slot->0.value->Ok_0@,
                    regions,
                    index,
                ).1->0
            },
            r matches Err(error) ==> final(self).cell.slot is Some && final(self).cell.slot->0.value
                == Err::<Fragment, SourceError>(error),
            final(self).cell.holds(hash128(regions.key_bytes())),
            old(self).cell.holds(hash128(regions.key_bytes())) ==> *final(self) == *old(self),
            r is Ok <==> final(self).cell.slot->0.value is Ok,
    {
        match self.layout_full(engine, regions) {
            Ok(fragment) => Ok(MultiChild::split(fragment, &regions, index)),
            Err(error) => Err(error),
        }
    }
}

impl MultiSpill {
    /// The spill after one more region: the height that was left there is
    /// part of its backlog for good.
    pub open spec fn committed(spill: MultiSpillView, regions: Regions<'_>) -> MultiSpillView {
        MultiSpillView {
            exist_non_empty_frame: spill.exist_non_empty_frame,
            multi: spill.multi,
            first: spill.first,
            full: spill.full,
            backlog: spill.backlog.push(regions.size.y),
            min_backlog_len: spill.min_backlog_len,
        }
    }

    /// The heights beyond the first with which the block is laid out again:
    /// those of the spill, then those of the regions, trimmed.
    pub open spec fn merged(spill: MultiSpillView, regions: Regions<'_>) -> Seq<Abs> {
        trimmed(spill.backlog + regions.backlog@, spill.min_backlog_len as nat, regions.last)
    }

    /// The spill once the block has been laid out again with `merged_len`
    /// heights.
    pub open spec fn raised(spill: MultiSpillView, merged_len: usize) -> MultiSpillView {
        MultiSpillView {
            exist_non_empty_frame: spill.exist_non_empty_frame,
            multi: spill.multi,
            first: spill.first,
            full: spill.full,
            backlog: spill.backlog,
            min_backlog_len: if spill.min_backlog_len >= merged_len {
                spill.min_backlog_len
            } else {
                merged_len
            },
        }
    }

    /// The bytes under which a spilled block is laid out again when the
    /// current regions are `regions`: those of the regions that begin
    /// where the block began, as wide as the current one, with the heights
    /// that the block is laid out with again.
    pub open spec fn spec_pod_key(spill: MultiSpillView, regions: Regions<'_>) -> Seq<u8> {
        regions_key(
            Axes { x: regions.size.x, y: spill.first },
            regions.expand,
            spill.full,
            regions.last,
            MultiSpill::merged(MultiSpill::committed(spill, regions), regions),
        )
    }

    /// The regions into which a spilled block is laid out again: they
    /// begin with the height that was left where the block began, are as
    /// wide as the current region, and go on with the given heights.
    pub fn pod<'b>(&self, regions: &Regions<'_>, backlog: &'b [Abs]) -> (pod: Regions<'b>)
        ensures
            pod.size == (Axes { x: regions.size.x, y: self.first }),
            pod.expand == regions.expand,
            pod.full == self.full,
            pod.backlog@ == backlog@,
            pod.last == regions.last,
    {
        Regions {
            size: Axes { x: regions.size.x, y: self.first },
            expand: regions.expand,
            full: self.full,
            backlog,
            last: regions.last,
        }
    }

    /// A copy of the spill.
    pub fn duplicate(&self) -> (copy: MultiSpill)
        ensures
            copy@ == self@,
    {
        MultiSpill {
            exist_non_empty_frame: self.exist_non_empty_frame,
            multi: self.multi,
            first: self.first,
            full: self.full,
            backlog: copy_heights(&self.backlog),
            min_backlog_len: self.min_backlog_len,
        }
    }

    /// Commits the current region to the spill and hands out the heights
    /// with which the block is laid out again.
    pub fn commit(&mut self, regions: &Regions<'_>) -> (merged: Vec<Abs>)
        ensures
            final(self)@ == MultiSpill::committed(old(self)@, *regions),
            merged@ == MultiSpill::merged(final(self)@, *regions),
    {
        self.backlog.push(regions.size.y);
        let mut merged = copy_heights(&self.backlog);
        let mut i: usize = 0;
        while i < regions.backlog.len()
            invariant
                i <= regions.backlog@.len(),
                merged@ == self.backlog@ + regions.backlog@.take(i as int),
            decreases regions.backlog@.len() - i,
        {
            merged.push(regions.backlog[i]);
            assert(merged@ =~= self.backlog@ + regions.backlog@.take(i + 1));
            i += 1;
        }
        assert(regions.backlog@.take(i as int) == regions.backlog@);
        let ghost whole = merged@;
        while merged.len() > self.min_backlog_len && regions.last == Some(merged[merged.len() - 1])
            invariant
                trimmed(merged@, self.min_backlog_len as nat, regions.last) == trimmed(
                    whole,
                    self.min_backlog_len as nat,
                    regions.last,
                ),
            decreases merged@.len(),
        {
            let ghost before = merged@;
            merged.pop();
            assert(merged@ == before.drop_last());
        }
        merged
    }

    /// The frame for the current region out of the frames of the whole
    /// block, and the spill where the block goes on after it. The frames of
    /// the regions before are passed over. Where the block has no frame for
    /// the current region, that is an error.
    pub fn resume(self, fragment: &Fragment, merged_len: usize, span: Span) -> (r: Result<
        (Frame, Option<MultiSpill>),
        SourceError,
    >)
        ensures
            r is Ok <==> fragment@.len() > self.backlog@.len(),
            r matches Ok(pair) ==> {
                &&& pair.0 == fragment@[self.backlog@.len() as int]
                &&& pair.1 is Some <==> fragment@.len() > self.backlog@.len() + 1
                &&& pair.1 is Some ==> pair.1->0@ == MultiSpill::raised(self@, merged_len)
            },
            r matches Err(error) ==> error == (SourceError { span, kind: ErrorKind::MissingFrame }),
    {
        let mut spill = self;
        let skip = spill.backlog.len();
        let len = fragment.len();
        if len <= skip {
            return Err(SourceError::new(span, ErrorKind::MissingFrame));
        }
        if spill.min_backlog_len < merged_len {
            spill.min_backlog_len = merged_len;
        }
        let frame = fragment.get(skip);
        if len > skip + 1 {
            Ok((frame, Some(spill)))
        } else {
            Ok((frame, None))
        }
    }

    /// Lays the rest of the block out for the current region: the block is
    /// laid out again from the region in which it began, and the frames of
    /// the regions before this one are passed over.
    pub fn layout<E: Engine>(
        self,
        engine: &mut E,
        multi: &mut MultiChild,
        regions: Regions<'_>,
    ) -> (r: Result<(Frame, Option<MultiSpill>), SourceError>)
        ensures
            final(multi).same_block(old(multi)),
            r matches Ok(pair) ==> {
                &&& final(multi).cell.slot is Some
                &&& final(multi).cell.slot->0.value is Ok
                &&& final(multi).cell.slot->0.value->Ok_0@.len() > self.backlog@.len() + 1
                &&& pair.0 == final(multi).cell.slot->0.value->Ok_0@[self.backlog@.len() + 1 as int]
                &&& pair.1 is Some <==> final(multi).cell.slot->0.value->Ok_0@.len()
                    > self.backlog@.len() + 2
                &&& pair.1 is Some ==> pair.1->0@ == MultiSpill::raised(
                    MultiSpill::committed(self@, regions),
                    MultiSpill::merged(MultiSpill::committed(self@, regions), regions).len() as usize,
                )
            },
            r matches Err(error) ==> final(multi).cell.slot is Some && match final(multi).cell.slot->0.value {
                Err(failed) => error == failed,
                Ok(fragment) => fragment@.len() <= self.backlog@.len() + 1 && error == (SourceError {
                    span: old(multi).elem.span,
                    kind: ErrorKind::MissingFrame,
                }),
            },
            final(multi).cell.holds(hash128(MultiSpill::spec_pod_key(self@, regions))),
            old(multi).cell.holds(hash128(MultiSpill::spec_pod_key(self@, regions))) ==> *final(multi)
                == *old(multi),
            final(multi).cell.slot->0.value is Err ==> r is Err,
            final(multi).cell.slot->0.value is Ok && final(multi).cell.slot->0.value->Ok_0@.len()
                > self.backlog@.len() + 1 ==> r is Ok,
    {
        let mut spill = self;
        let merged = spill.commit(&regions);
        let pod = spill.pod(&regions, merged.as_slice());
        let span = multi.elem.span;
        match multi.layout_full(engine, pod) {
            Ok(fragment) => spill.resume(fragment, merged.len(), span),
            Err(error) => Err(error),
        }
    }

    /// The alignment of the block.
    pub fn align(&self, multi: &MultiChild) -> (r: Axes<FixedAlignment>)
        ensures
            r == multi.align,
    {
        multi.align
    }
}

/// An element placed out of the flow.
#[derive(Debug)]
pub struct PlacedChild {
    pub align_x: FixedAlignment,
    pub align_y: Smart<Option<FixedAlignment>>,
    pub scope: PlacementScope,
    pub float: bool,
    pub clearance: Abs,
    pub delta: Axes<Rel>,
    pub elem: PlaceElem,
    pub locator: Locator,
    pub alignment: Smart<Alignment>,
    pub cell: CachedCell<Result<Frame, SourceError>>,
}

/// The frame of an element once its layout is done: one that belongs to an
/// element is attached to it, an error stays an error.
pub open spec fn attached(laid_out: Result<Frame, SourceError>, parent: Option<Location>) -> Result<
    Frame,
    SourceError,
> {
    match (laid_out, parent) {
        (Ok(frame), Some(parent)) => Ok(frame.with_parent(parent)),
        _ => laid_out,
    }
}

pub fn attach(laid_out: Result<Frame, SourceError>, parent: Option<Location>) -> (r: Result<
    Frame,
    SourceError,
>)
    ensures
        r == attached(laid_out, parent),
{
    match (laid_out, parent) {
        (Ok(frame), Some(parent)) => {
            let mut frame = frame;
            frame.set_parent(parent);
            Ok(frame)
        },
        _ => laid_out,
    }
}

impl PlacedChild {
    pub open spec fn with_cell(self, cell: CachedCell<Result<Frame, SourceError>>) -> PlacedChild {
        PlacedChild {
            align_x: self.align_x,
            align_y: self.align_y,
            scope: self.scope,
            float: self.float,
            clearance: self.clearance,
            delta: self.delta,
            elem: self.elem,
            locator: self.locator,
            alignment: self.alignment,
            cell,
        }
    }

    /// The alignment under which the body is laid out: the given one, or
    /// the center.
    pub open spec fn spec_body_alignment(&self) -> Alignment {
        match self.alignment {
            Smart::Custom(alignment) => alignment,
            Smart::Auto => Alignment::Both(HAlignment::Center, VAlignment::Horizon),
        }
    }

    pub fn body_alignment(&self) -> (r: Alignment)
        ensures
            r == self.spec_body_alignment(),
    {
        match self.alignment {
            Smart::Custom(alignment) => alignment,
            Smart::Auto => Alignment::Both(HAlignment::Center, VAlignment::Horizon),
        }
    }

    /// The element's frame against a base size. What the cell holds for
    /// the base is handed out as it is; otherwise the engine lays the body
    /// out, a floating element's frame is attached to the element, and the
    /// cell keeps the outcome.
    pub fn layout<E: Engine>(&mut self, engine: &mut E, base: Size) -> (r: Result<Frame, SourceError>)
        requires
            old(self).float ==> old(self).elem.location is Some,
        ensures
            old(self).cell.holds(hash128(base.key_bytes())) ==> *final(self) == *old(self) && r
                == old(self).cell.slot->0.value,
            !old(self).cell.holds(hash128(base.key_bytes())) ==> *final(self) == old(self).with_cell(
                CachedCell { slot: Some(Slot { key: hash128(base.key_bytes()), value: r }) },
            ),
            !old(self).cell.holds(hash128(base.key_bytes())) && r is Ok && old(self).float ==> r->Ok_0.parent
                == old(self).elem.location,
    {
        let key = CachedCell::<Result<Frame, SourceError>>::key_of(&base);
        match self.cell.get(key) {
            Some(known) => {
                return *known;
            },
            None => {},
        }
        let laid_out = engine.layout_frame(
            self.elem.body,
            self.locator.relayout(),
            Some(self.body_alignment()),
            Region::new(base, Axes::splat(false)),
        );
        let parent = if self.float {
            self.elem.location
        } else {
            None
        };
        let out = attach(laid_out, parent);
        self.cell.put(key, out);
        out
    }

    /// The place of the element in the document.
    pub fn location(&self) -> (r: Location)
        requires
            self.elem.location is Some,
        ensures
            Some(r) == self.elem.location,
    {
        self.elem.location.unwrap()
    }
}

/// Content to the side, with text flowing around it.
#[derive(Debug)]
pub struct WrapChild {
    /// The logical side on which the content stands.
    pub side: CutoutSide,
    pub scope: PlacementScope,
    /// The space kept free between the content and the text.
    pub clearance: Abs,
    pub elem: WrapElem,
    pub locator: Locator,
    pub cell: CachedCell<Result<Frame, SourceError>>,
}

impl WrapChild {
    pub open spec fn with_cell(self, cell: CachedCell<Result<Frame, SourceError>>) -> WrapChild {
        WrapChild {
            side: self.side,
            scope: self.scope,
            clearance: self.clearance,
            elem: self.elem,
            locator: self.locator,
            cell,
        }
    }

    /// The content's frame against a base size, attached to the element.
    /// What the cell holds for the base is handed out as it is; otherwise
    /// the engine lays the body out, and the cell keeps the outcome.
    pub fn layout<E: Engine>(&mut self, engine: &mut E, base: Size) -> (r: Result<Frame, SourceError>)
        requires
            old(self).elem.location is Some,
        ensures
            old(self).cell.holds(hash128(base.key_bytes())) ==> *final(self) == *old(self) && r
                == old(self).cell.slot->0.value,
            !old(self).cell.holds(hash128(base.key_bytes())) ==> *final(self) == old(self).with_cell(
                CachedCell { slot: Some(Slot { key: hash128(base.key_bytes()), value: r }) },
            ),
            !old(self).cell.holds(hash128(base.key_bytes())) && r is Ok ==> r->Ok_0.parent
                == old(self).elem.location,
    {
        let key = CachedCell::<Result<Frame, SourceError>>::key_of(&base);
        match self.cell.get(key) {
            Some(known) => {
                return *known;
            },
            None => {},
        }
        let laid_out = engine.layout_frame(
            self.elem.body,
            self.locator.relayout(),
            None,
            Region::new(base, Axes::splat(false)),
        );
        let out = attach(laid_out, self.elem.location);
        self.cell.put(key, out);
        out
    }

    /// The place of the element in the document.
    pub fn location(&self) -> (r: Location)
        requires
            self.elem.location is Some,
        ensures
            Some(r) == self.elem.location,
    {
        self.elem.location.unwrap()
    }
}

/// A column of given width to the side, with text flowing around it.
#[derive(Debug)]
pub struct MastheadChild {
    /// The logical side on which the column stands.
    pub side: CutoutSide,
    pub scope: PlacementScope,
    /// The space kept free between the column and the text.
    pub clearance: Abs,
    /// The width of the column.
    pub width: Abs,
    pub elem: MastheadElem,
    pub locator: Locator,
    pub cell: CachedCell<Result<Frame, SourceError>>,
}

impl MastheadChild {
    pub open spec fn with_cell(self, cell: CachedCell<Result<Frame, SourceError>>) -> MastheadChild {
        MastheadChild {
            side: self.side,
            scope: self.scope,
            clearance: self.clearance,
            width: self.width,
            elem: self.elem,
            locator: self.locator,
            cell,
        }
    }

    /// The size that the column's body is laid out against: the column's
    /// own width, and the height of the base.
    pub open spec fn spec_body_base(&self, base: Size) -> Size {
        Axes { x: self.width, y: base.y }
    }

    pub fn body_base(&self, base: Size) -> (r: Size)
        ensures
            r == self.spec_body_base(base),
    {
        Axes { x: self.width, y: base.y }
    }

    /// The column's frame against a base size, attached to the element.
    /// What the cell holds for the base is handed out as it is; otherwise
    /// the engine lays the body out in the column's width, and the cell
    /// keeps the outcome.
    pub fn layout<E: Engine>(&mut self, engine: &mut E, base: Size) -> (r: Result<Frame, SourceError>)
        requires
            old(self).elem.location is Some,
        ensures
            old(self).cell.holds(hash128(base.key_bytes())) ==> *final(self) == *old(self) && r
                == old(self).cell.slot->0.value,
            !old(self).cell.holds(hash128(base.key_bytes())) ==> *final(self) == old(self).with_cell(
                CachedCell { slot: Some(Slot { key: hash128(base.key_bytes()), value: r }) },
            ),
            !old(self).cell.holds(hash128(base.key_bytes())) && r is Ok ==> r->Ok_0.parent
                == old(self).elem.location,
    {
        let key = CachedCell::<Result<Frame, SourceError>>::key_of(&base);
        match self.cell.get(key) {
            Some(known) => {
                return *known;
            },
            None => {},
        }
        let laid_out = engine.layout_frame(
            self.elem.body,
            self.locator.relayout(),
            None,
            Region::new(self.body_base(base), Axes::splat(false)),
        );
        let out = attach(laid_out, self.elem.location);
        self.cell.put(key, out);
        out
    }

    /// The place of the element in the document.
    pub fn location(&self) -> (r: Location)
        requires
            self.elem.location is Some,
        ensures
            Some(r) == self.elem.location,
    {
        self.elem.location.unwrap()
    }
}

} // verus!
