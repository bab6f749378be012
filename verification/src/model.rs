//! The state of a distribution as a value, and what each step makes of it.
//!
//! The distributor's own functions are held to these definitions; the laws
//! of spacing collapse, of the height account and of sticky blocks are
//! proved here, over the state alone.

use vstd::prelude::*;
use crate::abs::Abs;
use crate::abs::Fr;
use crate::abs::Rel;
use crate::cell::Fingerprint;
use crate::cell::hash128;
use crate::child::Child;
use crate::child::ChildKind;
use crate::diag::SourceError;
use crate::frame::Frame;
use crate::frame::Piece;
use crate::frame::Placement;
use crate::frame::Tag;
use crate::geom::Axes;
use crate::geom::FixedAlignment;
use crate::geom::Region;
use crate::geom::Regions;
use crate::geom::Size;
use crate::geom::spec_delta_to_point;
use crate::geom::spec_point_add;
use crate::geom::spec_select;
use crate::geom::spec_size_min;
use crate::geom::spec_size_zero;
use crate::geom::Smart;
use crate::diag::Stop;
use crate::elements::Costs;
use crate::lines::need_of;
use crate::lines::spec_prevent_orphans;
use crate::work::ParSpillView;
use crate::work::WorkView;

verus! {

/// A block of fractional height: which child it is, and how it is aligned
/// across the region.
#[derive(Clone, Copy, Debug)]
pub struct FrBlock {
    pub child: usize,
    pub align_x: FixedAlignment,
}

/// How a placed frame is positioned.
#[derive(Clone, Copy, Debug)]
pub struct Placing {
    pub align_x: FixedAlignment,
    pub align_y: Smart<Option<FixedAlignment>>,
    pub delta: Axes<Rel>,
    pub float: bool,
}

/// What has been laid out into a region, before the region is arranged.
#[derive(Clone, Copy, Debug)]
pub enum Item {
    /// An introspection tag.
    Tag(Tag),
    /// Spacing and its weakness.
    Abs(Abs, u8),
    /// Fractional spacing and its weakness, or a block of fractional
    /// height.
    Fr(Fr, u8, Option<FrBlock>),
    /// The frame of a line or a block, and its alignment.
    Frame(Frame, Axes<FixedAlignment>),
    /// The frame of an element that is placed and does not float.
    Placed(Frame, Placing),
}

impl Item {
    /// The height that the item takes from the region.
    pub open spec fn height(self) -> Abs {
        match self {
            Item::Abs(v, _) => v,
            Item::Frame(frame, _) => frame.size.y,
            _ => Abs::spec_zero(),
        }
    }

    /// Whether the search for what spacing rests on looks past the item:
    /// past tags, placed frames and strong spacing, and, where
    /// `through_abs` is set, past weak spacing too.
    pub open spec fn skippable(self, through_abs: bool) -> bool {
        match self {
            Item::Tag(_) => true,
            Item::Placed(_, _) => true,
            Item::Abs(_, weakness) => weakness == 0 || through_abs,
            _ => false,
        }
    }

    /// Whether the item moves on to the next region if the region holds
    /// nothing but such items.
    pub open spec fn spec_migratable(self) -> bool {
        match self {
            Item::Tag(_) => true,
            Item::Frame(frame, _) => frame.spec_is_marker(),
            Item::Placed(_, placing) => !placing.float,
            _ => false,
        }
    }
}

/// What the distributor remembers of an item for the sake of sticky
/// blocks.
pub enum Mark {
    /// Not a frame, or an empty frame that is not sticky.
    Plain,
    /// A frame that is not sticky and holds something: what sticky blocks
    /// before it stay with.
    Loose,
    /// A sticky frame that moves on with its group when the region ends
    /// on the group.
    Bound,
    /// A sticky frame whose group began where moving on could change
    /// nothing: it stays.
    Pinned,
}

/// The place of the last item that is not looked past, or -1.
pub open spec fn last_solid(items: Seq<Item>, through_abs: bool) -> int
    decreases items.len(),
{
    if items.len() == 0 {
        -1
    } else if items.last().skippable(through_abs) {
        last_solid(items.drop_last(), through_abs)
    } else {
        items.len() - 1
    }
}

/// The height that the items take, as an exact integer of raw units.
pub open spec fn used(items: Seq<Item>) -> int
    decreases items.len(),
{
    if items.len() == 0 {
        0
    } else {
        used(items.drop_last()) + items.last().height().raw
    }
}

/// The height at which the next item starts: the heights of spacing and
/// frames, added from the top.
pub open spec fn spec_current_y(items: Seq<Item>) -> Abs
    decreases items.len(),
{
    if items.len() == 0 {
        Abs::spec_zero()
    } else {
        spec_current_y(items.drop_last()).add_spec(items.last().height())
    }
}

pub open spec fn has_frame(items: Seq<Item>) -> bool {
    exists|i: int| 0 <= i < items.len() && (#[trigger] items[i]) is Frame
}

/// Every block of fractional height among the items is a child of the
/// kind for it.
pub open spec fn blocks_ok(items: Seq<Item>, kinds: Seq<ChildKind>) -> bool {
    forall|i: int|
        0 <= i < items.len() && (#[trigger] items[i]) is Fr && items[i]->Fr_2 is Some ==> {
            &&& items[i]->Fr_2->0.child < kinds.len()
            &&& kinds[items[i]->Fr_2->0.child as int] == ChildKind::Single
        }
}

/// Whether the later items hold no block of fractional height that the
/// earlier ones do not hold, but for the child at `fresh`, if one is given:
/// whatever kinds of children make the earlier items well-formed, and have
/// a fitting child at `fresh`, make the later ones well-formed too.
pub open spec fn keeps_blocks(before: Seq<Item>, after: Seq<Item>, fresh: Option<usize>) -> bool {
    forall|kinds: Seq<ChildKind>| #[trigger]
        blocks_ok(before, kinds) && (fresh is Some ==> fresh->0 < kinds.len() && kinds[fresh->0 as int]
            == ChildKind::Single) ==> blocks_ok(after, kinds)
}

/// The number of frames among the items.
pub open spec fn count_frames(items: Seq<Item>) -> nat
    decreases items.len(),
{
    if items.len() == 0 {
        0
    } else if items.last() is Frame {
        count_frames(items.drop_last()) + 1
    } else {
        count_frames(items.drop_last())
    }
}

pub open spec fn all_migratable(items: Seq<Item>) -> bool {
    forall|i: int| 0 <= i < items.len() ==> (#[trigger] items[i]).spec_migratable()
}

/// The trailing weak spacing, or zero.
pub open spec fn spec_weak_spacing(items: Seq<Item>) -> Abs {
    let k = last_solid(items, false);
    if k >= 0 && items[k] is Abs {
        items[k]->Abs_0
    } else {
        Abs::spec_zero()
    }
}

/// The tags as items.
pub open spec fn tag_items(tags: Seq<Tag>) -> Seq<Item> {
    Seq::new(tags.len(), |i: int| Item::Tag(tags[i]))
}

pub open spec fn plain_marks(len: nat) -> Seq<Mark> {
    Seq::new(len, |i: int| Mark::Plain)
}

/// Whether a frame that is not sticky and holds something follows the
/// item at `i`.
pub open spec fn followed(marks: Seq<Mark>, i: int) -> bool {
    exists|j: int| i < j < marks.len() && (#[trigger] marks[j]) is Loose
}

/// What the items of a region add up to.
pub struct Measure {
    /// The sum of the fractions.
    pub frs: Fr,
    /// The height of spacing and frames, and the width of the widest frame.
    pub used: Size,
    /// Whether there is a block of fractional height.
    pub has_fr_child: bool,
}

pub open spec fn spec_measure(items: Seq<Item>) -> Measure
    decreases items.len(),
{
    if items.len() == 0 {
        Measure { frs: Fr { raw: 0 }, used: spec_size_zero(), has_fr_child: false }
    } else {
        let m = spec_measure(items.drop_last());
        match items.last() {
            Item::Abs(v, _) => Measure { used: Axes { x: m.used.x, y: m.used.y.add_spec(v) }, ..m },
            Item::Fr(v, _, block) => Measure {
                frs: m.frs.add_spec(v),
                has_fr_child: m.has_fr_child || block is Some,
                ..m
            },
            Item::Frame(frame, _) => Measure {
                used: Axes { x: m.used.x.max_spec(frame.size.x), y: m.used.y.add_spec(frame.size.y) },
                ..m
            },
            _ => m,
        }
    }
}

/// The number of blocks of fractional height among the items.
pub open spec fn count_blocks(items: Seq<Item>) -> nat
    decreases items.len(),
{
    if items.len() == 0 {
        0
    } else if items.last() is Fr && items.last()->Fr_2 is Some {
        count_blocks(items.drop_last()) + 1
    } else {
        count_blocks(items.drop_last())
    }
}

/// A block of fractional height and its fraction.
pub struct Share {
    pub fr: Fr,
    pub block: FrBlock,
}

/// The blocks of fractional height among the items, in their order.
pub open spec fn fr_blocks(items: Seq<Item>) -> Seq<Share>
    decreases items.len(),
{
    if items.len() == 0 {
        Seq::empty()
    } else if items.last() is Fr && items.last()->Fr_2 is Some {
        fr_blocks(items.drop_last()).push(
            Share { fr: items.last()->Fr_0, block: items.last()->Fr_2->0 },
        )
    } else {
        fr_blocks(items.drop_last())
    }
}

/// The region into which a block of fractional height is laid out: as
/// wide as the region, and as high as the block's share of the height that
/// the fractions share.
pub open spec fn spec_share_region(region: Region, fr: Fr, frs: Fr, fr_space: Abs) -> Region {
    Region {
        size: Axes { x: region.size.x, y: fr.share_spec(frs, fr_space) },
        expand: region.expand,
    }
}

/// Whether no later block of fractional height is the same child as the
/// one at `k`.
pub open spec fn last_of_child(blocks: Seq<Share>, k: int) -> bool {
    forall|later: int|
        k < later < blocks.len() ==> (#[trigger] blocks[later]).block.child != blocks[k].block.child
}

/// Whether the child of the block is a block that does not break, whose
/// cell holds `value` for the region into which the block is laid out.
pub open spec fn share_held(
    children: Seq<Child>,
    share: Share,
    region: Region,
    frs: Fr,
    fr_space: Abs,
    value: Result<Frame, SourceError>,
) -> bool {
    &&& share.block.child < children.len()
    &&& children[share.block.child as int] is Single
    &&& children[share.block.child as int]->Single_0.cell.holds(
        hash128(spec_share_region(region, share.fr, frs, fr_space).key_bytes()),
    )
    &&& children[share.block.child as int]->Single_0.cell.slot->0.value == value
}

/// There are as many blocks of fractional height as are counted.
pub proof fn lemma_fr_blocks_len(items: Seq<Item>)
    ensures
        fr_blocks(items).len() == count_blocks(items),
    decreases items.len(),
{
    if items.len() > 0 {
        lemma_fr_blocks_len(items.drop_last());
    }
}

/// The blocks among the first `i + 1` items are those among the first `i`
/// and the one at `i`, if there is one; and there are as many as are
/// counted.
pub proof fn lemma_take_blocks(items: Seq<Item>, i: int)
    requires
        0 <= i < items.len(),
    ensures
        fr_blocks(items.take(i + 1)) == if items[i] is Fr && items[i]->Fr_2 is Some {
            fr_blocks(items.take(i)).push(Share { fr: items[i]->Fr_0, block: items[i]->Fr_2->0 })
        } else {
            fr_blocks(items.take(i))
        },
        fr_blocks(items.take(i + 1)).len() == count_blocks(items.take(i + 1)),
        fr_blocks(items.take(i)).len() == count_blocks(items.take(i)),
{
    assert(items.take(i + 1).drop_last() == items.take(i));
    lemma_fr_blocks_len(items.take(i + 1));
    lemma_fr_blocks_len(items.take(i));
}

/// The blocks among the first `n` items are the first of the blocks among
/// all of them.
pub proof fn lemma_blocks_prefix(items: Seq<Item>, n: int)
    requires
        0 <= n <= items.len(),
    ensures
        fr_blocks(items.take(n)).len() <= fr_blocks(items).len(),
        forall|k: int|
            0 <= k < fr_blocks(items.take(n)).len() ==> (#[trigger] fr_blocks(items)[k]) == fr_blocks(
                items.take(n),
            )[k],
    decreases items.len() - n,
{
    if n == items.len() {
        assert(items.take(n) == items);
    } else {
        lemma_take_blocks(items, n);
        lemma_blocks_prefix(items, n + 1);
    }
}

/// The height that the fractions share, and the height that the region's
/// content then takes. Fractions share what is left of a region of finite
/// height, and the content then takes all of it; without fractions, or in
/// a region without end, nothing is shared.
pub open spec fn spec_fr_space(measure: Measure, region: Region) -> (Abs, Abs) {
    if measure.frs.raw > 0 && region.size.y.finite() {
        (region.size.y.sub_spec(measure.used.y), region.size.y)
    } else {
        (Abs::spec_zero(), measure.used.y)
    }
}

/// The size of the frame of a region: on an axis that is to be filled,
/// that of the region; on another, that of the content, but no more than
/// the region's.
pub open spec fn spec_page_size(region: Region, used: Size) -> Size {
    spec_select(region.expand, region.size, spec_size_min(used, region.size))
}

/// What the items of a region are arranged in.
#[derive(Clone, Copy, Debug)]
pub struct Sheet {
    /// The size of the frame.
    pub size: Size,
    /// The height of the frame that the content does not take.
    pub free: Abs,
    /// The sum of the fractions.
    pub frs: Fr,
    /// The height that the fractions share.
    pub fr_space: Abs,
}

/// Where the arranging stands before an item.
pub struct Pen {
    /// The height that the items before take.
    pub offset: Abs,
    /// The latest vertical alignment among the frames before. Every frame
    /// is moved down at least as far as those before it.
    pub ruler: FixedAlignment,
    /// The number of blocks of fractional height before.
    pub blocks: nat,
}

/// The pen after an item.
pub open spec fn pen_step(pen: Pen, item: Item, sheet: Sheet) -> Pen {
    match item {
        Item::Abs(v, _) => Pen { offset: pen.offset.add_spec(v), ..pen },
        Item::Fr(v, _, block) => Pen {
            offset: pen.offset.add_spec(v.share_spec(sheet.frs, sheet.fr_space)),
            blocks: if block is Some {
                pen.blocks + 1
            } else {
                pen.blocks
            },
            ..pen
        },
        Item::Frame(frame, align) => Pen {
            offset: pen.offset.add_spec(frame.size.y),
            ruler: pen.ruler.max_spec(align.y),
            ..pen
        },
        _ => pen,
    }
}

/// The pen before the item at `i`.
pub open spec fn pen_at(items: Seq<Item>, sheet: Sheet, i: nat) -> Pen
    decreases i,
{
    if i == 0 {
        Pen { offset: Abs::spec_zero(), ruler: FixedAlignment::Start, blocks: 0 }
    } else {
        pen_step(pen_at(items, sheet, (i - 1) as nat), items[i - 1], sheet)
    }
}

/// What an item leaves in the frame of the region, with the pen before
/// it. A tag stands at the left, at the height of the pen moved by the
/// ruler. Spacing leaves nothing. A block of fractional height stands at
/// the height of the pen, aligned across the frame. A frame stands where
/// its own alignment puts it across the frame, at the height of the pen
/// moved by the ruler, which the frame's own alignment raises first. A
/// placed frame stands where its alignments put it, an automatic vertical
/// one meaning the height of the pen moved by the ruler; its displacement
/// comes on top.
pub open spec fn piece_of(pen: Pen, item: Item, sheet: Sheet, fr_frames: Seq<Frame>) -> Option<
    Placement,
> {
    match item {
        Item::Tag(tag) => Some(
            Placement {
                pos: Axes {
                    x: Abs::spec_zero(),
                    y: pen.offset.add_spec(pen.ruler.position_spec(sheet.free)),
                },
                piece: Piece::Tag(tag),
            },
        ),
        Item::Abs(_, _) => None,
        Item::Fr(_, _, block) => match block {
            Some(block) => Some(
                Placement {
                    pos: Axes {
                        x: block.align_x.position_spec(
                            sheet.size.x.sub_spec(fr_frames[pen.blocks as int].size.x),
                        ),
                        y: pen.offset,
                    },
                    piece: Piece::Frame(fr_frames[pen.blocks as int]),
                },
            ),
            None => None,
        },
        Item::Frame(frame, align) => Some(
            Placement {
                pos: Axes {
                    x: align.x.position_spec(sheet.size.x.sub_spec(frame.size.x)),
                    y: pen.offset.add_spec(pen.ruler.max_spec(align.y).position_spec(sheet.free)),
                },
                piece: Piece::Frame(frame),
            },
        ),
        Item::Placed(frame, placing) => Some(
            Placement {
                pos: spec_point_add(
                    Axes {
                        x: placing.align_x.position_spec(sheet.size.x.sub_spec(frame.size.x)),
                        y: match placing.align_y {
                            Smart::Custom(Some(align)) => align.position_spec(
                                sheet.size.y.sub_spec(frame.size.y),
                            ),
                            _ => pen.offset.add_spec(pen.ruler.position_spec(sheet.free)),
                        },
                    },
                    spec_delta_to_point(placing.delta, sheet.size),
                ),
                piece: Piece::Frame(frame),
            },
        ),
    }
}

/// What the first `n` items leave in the frame of the region, in their
/// order.
pub open spec fn spec_pieces(items: Seq<Item>, sheet: Sheet, fr_frames: Seq<Frame>, n: nat) -> Seq<
    Placement,
>
    decreases n,
{
    if n == 0 {
        Seq::empty()
    } else {
        let before = spec_pieces(items, sheet, fr_frames, (n - 1) as nat);
        match piece_of(pen_at(items, sheet, (n - 1) as nat), items[n - 1], sheet, fr_frames) {
            Some(piece) => before.push(piece),
            None => before,
        }
    }
}

/// The width of the widest of the frames, or `start` if that is more.
pub open spec fn spec_widest(start: Abs, frames: Seq<Frame>) -> Abs
    decreases frames.len(),
{
    if frames.len() == 0 {
        start
    } else {
        spec_widest(start, frames.drop_last()).max_spec(frames.last().size.x)
    }
}

/// What the arranging works in, for a region that holds the items, the
/// given frames of its blocks of fractional height, and insertions of the
/// given width. The height of the frame follows from the items and the
/// region. Its width is that of the region where the region is to be
/// filled; else it is that of the widest frame, those of the blocks of
/// fractional height among them, or that of the insertions, if that is
/// more, but no more than the region's.
pub open spec fn spec_sheet(
    items: Seq<Item>,
    fr_frames: Seq<Frame>,
    region: Region,
    insertion: Abs,
) -> Sheet {
    let measure = spec_measure(items);
    let shared = spec_fr_space(measure, region);
    let widest = spec_widest(measure.used.x, fr_frames);
    let used_x = if region.expand.x {
        widest
    } else {
        widest.max_spec(insertion)
    };
    let size = spec_page_size(region, Axes { x: used_x, y: shared.1 });
    Sheet { size, free: size.y.sub_spec(shared.1), frs: measure.frs, fr_space: shared.0 }
}

/// Whether a frame of the given size and with the given pieces is the
/// frame of a region that holds the items, with the given frames of its
/// blocks of fractional height and insertions of the given width: it has
/// the size of the sheet, and each item stands where the arranging puts
/// it.
pub open spec fn arranged_with(
    items: Seq<Item>,
    fr_frames: Seq<Frame>,
    region: Region,
    insertion: Abs,
    size: Size,
    pieces: Seq<Placement>,
) -> bool {
    &&& size == spec_sheet(items, fr_frames, region, insertion).size
    &&& pieces == spec_pieces(
        items,
        spec_sheet(items, fr_frames, region, insertion),
        fr_frames,
        items.len(),
    )
}

/// Whether a frame of the given size and with the given pieces is the
/// frame of a region that holds the items, once its blocks of fractional
/// height have been laid out through the children: there is a frame for
/// each such block, which the cell of the block's child holds for the
/// block's share of the region, unless a later block is the same child;
/// and with these frames, and insertions of some width, the frame is the
/// arrangement of the items.
pub open spec fn arranged(
    items: Seq<Item>,
    region: Region,
    children: Seq<Child>,
    size: Size,
    pieces: Seq<Placement>,
) -> bool {
    let measure = spec_measure(items);
    let shared = spec_fr_space(measure, region);
    exists|fr_frames: Seq<Frame>, insertion: Abs|
        {
            &&& fr_frames.len() == fr_blocks(items).len()
            &&& forall|k: int|
                0 <= k < fr_frames.len() && last_of_child(fr_blocks(items), k) ==> share_held(
                    children,
                    #[trigger] fr_blocks(items)[k],
                    region,
                    measure.frs,
                    shared.0,
                    Ok(fr_frames[k]),
                )
            &&& #[trigger] arranged_with(items, fr_frames, region, insertion, size, pieces)
        }
}

/// Where no block of fractional height was counted, there is none.
pub proof fn lemma_no_blocks(items: Seq<Item>)
    ensures
        spec_measure(items).has_fr_child == (count_blocks(items) > 0),
    decreases items.len(),
{
    if items.len() > 0 {
        lemma_no_blocks(items.drop_last());
    }
}

/// The pen counts the blocks of fractional height before it, and there
/// are never more of them than among all the items.
pub proof fn lemma_pen_blocks(items: Seq<Item>, sheet: Sheet, i: nat)
    requires
        i <= items.len(),
    ensures
        pen_at(items, sheet, i).blocks == count_blocks(items.take(i as int)),
        count_blocks(items.take(i as int)) <= count_blocks(items),
        i < items.len() && items[i as int] is Fr && items[i as int]->Fr_2 is Some ==> count_blocks(
            items.take(i as int),
        ) < count_blocks(items),
    decreases items.len() - i,
{
    lemma_pen_counts(items, sheet, i);
    if i < items.len() {
        lemma_pen_blocks(items, sheet, (i + 1) as nat);
        assert(items.take(i + 1 as int).drop_last() == items.take(i as int));
    } else {
        assert(items.take(i as int) == items);
    }
}

pub proof fn lemma_pen_counts(items: Seq<Item>, sheet: Sheet, i: nat)
    requires
        i <= items.len(),
    ensures
        pen_at(items, sheet, i).blocks == count_blocks(items.take(i as int)),
    decreases i,
{
    if i > 0 {
        lemma_pen_counts(items, sheet, (i - 1) as nat);
        assert(items.take(i as int).drop_last() == items.take(i - 1));
    }
}

/// A point to go back to: the work at that time, and how many items stood
/// in the region.
pub struct Checkpoint {
    pub work: WorkView,
    pub items: usize,
}

/// The state of a distribution.
pub struct State<'r> {
    /// The regions; the height of the first is what is left of it.
    pub regions: Regions<'r>,
    pub items: Seq<Item>,
    /// One mark for each item.
    pub marks: Seq<Mark>,
    /// The height that was left when the distribution began.
    pub start: Abs,
    /// Where to go back to if the region ends on sticky blocks.
    pub sticky: Option<Checkpoint>,
    /// Whether the sticky blocks of the current group move on with the
    /// frame that follows them; nothing while no such group is open.
    pub stickable: Option<bool>,
    /// Whether the composer has stopped the region at a frame that was
    /// about to enter.
    pub stopped: bool,
}

impl<'r> State<'r> {
    /// The state at the start of a region.
    pub open spec fn initial(regions: Regions<'r>) -> State<'r> {
        State {
            regions,
            items: Seq::empty(),
            marks: Seq::empty(),
            start: regions.size.y,
            sticky: None,
            stickable: None,
            stopped: false,
        }
    }

    /// After the composer has stopped the region at a frame.
    pub open spec fn halted(self) -> State<'r> {
        State { stopped: true, ..self }
    }

    /// The height that is left.
    pub open spec fn height(self) -> Abs {
        self.regions.size.y
    }

    pub open spec fn with_height(self, height: Abs) -> State<'r> {
        State {
            regions: Regions {
                size: Axes { x: self.regions.size.x, y: height },
                expand: self.regions.expand,
                full: self.regions.full,
                backlog: self.regions.backlog,
                last: self.regions.last,
            },
            ..self
        }
    }

    /// With `by` taken from the height that is left.
    pub open spec fn took(self, by: Abs) -> State<'r> {
        self.with_height(self.height().sub_spec(by))
    }

    /// With `by` given back to the height that is left.
    pub open spec fn gave(self, by: Abs) -> State<'r> {
        self.with_height(self.height().add_spec(by))
    }

    pub open spec fn pushed(self, item: Item, mark: Mark) -> State<'r> {
        State { items: self.items.push(item), marks: self.marks.push(mark), ..self }
    }

    pub open spec fn replaced(self, k: int, item: Item) -> State<'r> {
        State { items: self.items.update(k, item), ..self }
    }

    pub open spec fn removed(self, k: int) -> State<'r> {
        State { items: self.items.remove(k), marks: self.marks.remove(k), ..self }
    }

    /// Whether a new spacing of the given weakness and amount takes the
    /// place of an earlier weak one: it must not be weaker, and of two
    /// equally weak ones the larger stays.
    pub open spec fn overrides(weakness: u8, amount: int, prev_weakness: u8, prev_amount: int) -> bool {
        weakness <= prev_weakness && (weakness < prev_weakness || amount > prev_amount)
    }

    /// After spacing of the given amount. Strong spacing always enters.
    /// Weak spacing looks for the last item that is not a tag, a placed
    /// frame or strong spacing: where there is none, or it is a frame or a
    /// fractional block, the spacing enters; on weak spacing it collapses
    /// with it, leaving one of the two; on fractional spacing it vanishes.
    pub open spec fn rel(self, amount: Abs, weakness: u8) -> State<'r> {
        if weakness == 0 {
            self.took(amount).pushed(Item::Abs(amount, weakness), Mark::Plain)
        } else {
            let k = last_solid(self.items, false);
            if k < 0 {
                self.took(amount).pushed(Item::Abs(amount, weakness), Mark::Plain)
            } else {
                match self.items[k] {
                    Item::Abs(prev, prev_weakness) => if Self::overrides(
                        weakness,
                        amount.raw as int,
                        prev_weakness,
                        prev.raw as int,
                    ) {
                        self.took(amount.sub_spec(prev)).replaced(k, Item::Abs(amount, weakness))
                    } else {
                        self
                    },
                    Item::Frame(_, _) => self.took(amount).pushed(
                        Item::Abs(amount, weakness),
                        Mark::Plain,
                    ),
                    Item::Fr(_, _, Some(_)) => self.took(amount).pushed(
                        Item::Abs(amount, weakness),
                        Mark::Plain,
                    ),
                    _ => self,
                }
            }
        }
    }

    /// Without the trailing weak spacing, if there is one; the height of
    /// weak spacing that goes is given back.
    pub open spec fn trim(self) -> State<'r> {
        let k = last_solid(self.items, false);
        if k < 0 {
            self
        } else {
            match self.items[k] {
                Item::Abs(amount, _) => self.gave(amount).removed(k),
                Item::Fr(_, weakness, None) => if weakness >= 1 {
                    self.removed(k)
                } else {
                    self
                },
                _ => self,
            }
        }
    }

    /// After fractional spacing. Strong spacing always enters. Weak
    /// spacing looks for the last item that is not a tag, a placed frame
    /// or spacing of fixed amount: where there is none, or it is a frame, a
    /// fractional block or strong fractional spacing, the spacing enters;
    /// on weak fractional spacing it collapses with it. Before fractional
    /// spacing enters, trailing weak spacing goes.
    pub open spec fn fr(self, fr: Fr, weakness: u8) -> State<'r> {
        let entered = self.trim().pushed(Item::Fr(fr, weakness, None), Mark::Plain);
        if weakness == 0 {
            entered
        } else {
            let k = last_solid(self.items, true);
            if k < 0 {
                entered
            } else {
                match self.items[k] {
                    Item::Fr(prev, prev_weakness, None) => if prev_weakness >= 1 {
                        if Self::overrides(weakness, fr.raw as int, prev_weakness, prev.raw as int) {
                            self.replaced(k, Item::Fr(fr, weakness, None))
                        } else {
                            self
                        }
                    } else {
                        entered
                    },
                    _ => entered,
                }
            }
        }
    }

    /// With the tags as items at the end.
    pub open spec fn flushed(self, tags: Seq<Tag>) -> State<'r> {
        State {
            items: self.items + tag_items(tags),
            marks: self.marks + plain_marks(tags.len()),
            ..self
        }
    }

    /// After taking note of a frame that is about to enter. The first
    /// sticky frame of a group settles whether the group can move on: it
    /// can where the next region may differ. If it can, and no point to go
    /// back to is kept yet, `checkpoint` is kept. A frame that is not sticky
    /// and holds something closes the group and drops the point.
    pub open spec fn noted(self, sticky: bool, empty: bool, checkpoint: Checkpoint) -> State<'r> {
        if sticky {
            if self.sticky is None {
                let stickable = match self.stickable {
                    Some(stickable) => stickable,
                    None => self.regions.spec_may_progress(),
                };
                State {
                    stickable: Some(stickable),
                    sticky: if stickable {
                        Some(checkpoint)
                    } else {
                        None
                    },
                    ..self
                }
            } else {
                self
            }
        } else if !empty {
            State { sticky: None, stickable: None, ..self }
        } else {
            self
        }
    }

    /// Whether a frame of the given height has no room while the next
    /// region may differ.
    pub open spec fn lacks_room(self, height: Abs) -> bool {
        !self.height().fits_spec(height) && self.regions.spec_may_progress()
    }

    /// What a call that lets a frame enter leaves behind: on a stop of the
    /// composer, the state that has taken note of the frame and of the
    /// stop, and the work as it was; else
    /// the state with the frame in it, and the work without waiting tags.
    pub open spec fn frame_outcome(
        self,
        work: WorkView,
        frame: Frame,
        align: Axes<FixedAlignment>,
        sticky: bool,
        stopped: bool,
        after: State<'r>,
        work_after: WorkView,
    ) -> bool {
        let noted = self.noted(
            sticky,
            frame.spec_is_empty(),
            Checkpoint { work, items: self.items.len() as usize },
        );
        if stopped {
            after == noted.halted() && work_after == work
        } else {
            after == noted.framed(work.tags, frame, align, sticky) && work_after == work.with_tags(
                Seq::empty(),
            )
        }
    }

    /// Whether the region ends before a frame of the given height that
    /// needs `need` free: the frame has no room and the next region may
    /// differ, or what it needs has no room here but has room in the next
    /// region.
    pub open spec fn breaks_before(self, height: Abs, need: Abs) -> bool {
        ||| !self.height().fits_spec(height) && self.regions.spec_may_progress()
        ||| !self.height().fits_spec(need) && self.regions.spec_next_height() is Some
            && self.regions.spec_next_height()->0.fits_spec(need)
    }

    /// The mark of a frame that enters a state which has taken note of it.
    pub open spec fn frame_mark(self, sticky: bool, empty: bool) -> Mark {
        if sticky {
            if self.stickable == Some(true) {
                Mark::Bound
            } else {
                Mark::Pinned
            }
        } else if !empty {
            Mark::Loose
        } else {
            Mark::Plain
        }
    }

    /// After a frame has entered: its height is taken, the waiting tags
    /// come before it.
    pub open spec fn framed(
        self,
        tags: Seq<Tag>,
        frame: Frame,
        align: Axes<FixedAlignment>,
        sticky: bool,
    ) -> State<'r> {
        self.took(frame.size.y).flushed(tags).pushed(
            Item::Frame(frame, align),
            self.frame_mark(sticky, frame.spec_is_empty()),
        )
    }

    /// What every step of a distribution keeps: the height at the start
    /// is the same, no block of fractional height comes from nowhere, and
    /// a point to go back to is the one that was kept before, or it holds
    /// the work as it was before the step.
    pub open spec fn leads_to(self, work: WorkView, after: State<'r>, fresh: Option<usize>) -> bool {
        &&& after.start == self.start
        &&& keeps_blocks(self.items, after.items, fresh)
        &&& after.sticky is Some ==> after.sticky == self.sticky || after.sticky->0.work == work
    }

    /// After taking note of a frame that is not sticky: one that holds
    /// something closes the group of sticky blocks before it.
    pub open spec fn unstuck(self, empty: bool) -> State<'r> {
        if !empty {
            State { sticky: None, stickable: None, ..self }
        } else {
            self
        }
    }

    /// The state once the first `k` of the lines have entered, one after
    /// the other, with the leading between two of them as weak spacing.
    /// The waiting tags enter with the first line.
    pub open spec fn after_lines(
        self,
        tags: Seq<Tag>,
        lines: Seq<Frame>,
        align: Axes<FixedAlignment>,
        leading: Abs,
        k: nat,
    ) -> State<'r>
        decreases k, 0nat,
    {
        if k == 0 {
            self
        } else {
            let at = self.at_line(tags, lines, align, leading, (k - 1) as nat);
            at.unstuck(lines[k - 1].spec_is_empty()).framed(
                if k == 1 {
                    tags
                } else {
                    Seq::empty()
                },
                lines[k - 1],
                align,
                false,
            )
        }
    }

    /// The state in which the line at `k` is looked at: the lines before
    /// it have entered, and after them the leading.
    pub open spec fn at_line(
        self,
        tags: Seq<Tag>,
        lines: Seq<Frame>,
        align: Axes<FixedAlignment>,
        leading: Abs,
        k: nat,
    ) -> State<'r>
        decreases k, 1nat,
    {
        if k == 0 {
            self
        } else {
            self.after_lines(tags, lines, align, leading, k).rel(leading, 5)
        }
    }

    /// What a call that places the lines of a paragraph leaves behind, if
    /// it got as far as the line at `k`. The lines before it have entered,
    /// none of them ending the region. If `k` is past the last line, all is
    /// well, and the spacing below the paragraph has entered as weak
    /// spacing. If the region ends before the line at `k`, the lines from
    /// there on are kept as a spill, which counts the lines that stand in
    /// regions so far; the paragraph is done with if `advance` is set. Else
    /// the composer stopped the region at that line.
    pub open spec fn lines_case(
        self,
        work: WorkView,
        lines: Seq<Frame>,
        align: Axes<FixedAlignment>,
        leading: Abs,
        costs: Costs,
        spacing: Rel,
        advance: bool,
        par: Option<usize>,
        placed_before: usize,
        k: nat,
        r: Result<(), Stop>,
        after: State<'r>,
        work_after: WorkView,
    ) -> bool {
        let at = self.at_line(work.tags, lines, align, leading, k);
        let work_at = if k == 0 {
            work
        } else {
            work.with_tags(Seq::empty())
        };
        let spilled = work_at.with_par_spill(
            Some(
                ParSpillView {
                    frames: lines.skip(k as int),
                    align,
                    leading,
                    costs,
                    spacing,
                    par,
                    lines_placed: (placed_before + k) as usize,
                },
            ),
        );
        &&& k <= lines.len()
        &&& forall|j: nat|
            j < k ==> !(#[trigger] self.at_line(work.tags, lines, align, leading, j)).breaks_before(
                lines[j as int].size.y,
                need_of(lines, j as int, leading, costs),
            )
        &&& if k == lines.len() {
            &&& r is Ok
            &&& after == self.after_lines(work.tags, lines, align, leading, k).rel(
                spacing.relative_to_spec(self.regions.spec_base().y),
                4,
            )
            &&& work_after == work_at
        } else if at.breaks_before(lines[k as int].size.y, need_of(lines, k as int, leading, costs)) {
            &&& r == Err::<(), Stop>(Stop::Finish(false))
            &&& after == at
            &&& work_after == if advance {
                spilled.advanced()
            } else {
                spilled
            }
        } else {
            &&& r is Err
            &&& after == at.unstuck(lines[k as int].spec_is_empty()).halted()
            &&& work_after == work_at
        }
    }

    /// What a call that places the lines of a paragraph leaves behind.
    pub open spec fn lines_outcome(
        self,
        work: WorkView,
        lines: Seq<Frame>,
        align: Axes<FixedAlignment>,
        leading: Abs,
        costs: Costs,
        spacing: Rel,
        advance: bool,
        par: Option<usize>,
        placed_before: usize,
        r: Result<(), Stop>,
        after: State<'r>,
        work_after: WorkView,
    ) -> bool {
        exists|k: nat| #[trigger]
            self.lines_case(
                work,
                lines,
                align,
                leading,
                costs,
                spacing,
                advance,
                par,
                placed_before,
                k,
                r,
                after,
                work_after,
            )
    }

    /// With only the items that stood at the checkpoint.
    pub open spec fn restored(self, checkpoint: Checkpoint) -> State<'r> {
        if checkpoint.items <= self.items.len() {
            State {
                items: self.items.take(checkpoint.items as int),
                marks: self.marks.take(checkpoint.items as int),
                ..self
            }
        } else {
            self
        }
    }

    /// The state in which a region is arranged. A region that was ended
    /// by force keeps its items and takes the waiting tags. Otherwise a
    /// region of nothing but items that move on is emptied, and a region
    /// that ends on sticky blocks goes back to before them. Trailing weak
    /// spacing goes in any case.
    pub open spec fn settled(self, init: Checkpoint, forced: bool, tags: Seq<Tag>) -> State<'r> {
        if forced {
            self.flushed(tags).trim()
        } else if self.items.len() > 0 && all_migratable(self.items) {
            self.restored(init).trim()
        } else if self.sticky is Some {
            State { sticky: None, ..self.restored(self.sticky->0) }.trim()
        } else {
            self.trim()
        }
    }

    /// The work with which the next region begins, as the same three cases
    /// leave it.
    pub open spec fn settled_work(self, work: WorkView, init: Checkpoint, forced: bool) -> WorkView {
        if forced {
            work.with_tags(Seq::empty())
        } else if self.items.len() > 0 && all_migratable(self.items) {
            init.work
        } else if self.sticky is Some {
            self.sticky->0.work
        } else {
            work
        }
    }

    /// There is a mark for each item, and only frames have a mark other
    /// than the plain one.
    pub open spec fn marked(self) -> bool {
        &&& self.marks.len() == self.items.len()
        &&& forall|i: int|
            0 <= i < self.marks.len() && !((#[trigger] self.marks[i]) is Plain) ==> self.items[i] is Frame
    }

    /// The height account: while the height that is left is finite, it is
    /// the height at the start less the heights of the items, exactly.
    pub open spec fn balanced(self) -> bool {
        self.height().finite() ==> self.height().raw == self.start.raw - used(self.items)
    }

    /// Sticky frames are tied to what follows. While a point to go back to
    /// is kept, the current group can move on, the point lies among the
    /// items, a bound frame stands at or after it and no loose frame does.
    /// And every bound frame is followed by a loose frame or stands at or
    /// after that point.
    pub open spec fn tied(self) -> bool {
        &&& self.sticky is Some ==> {
            &&& self.stickable == Some(true)
            &&& self.sticky->0.items <= self.marks.len()
            &&& exists|j: int|
                self.sticky->0.items <= j < self.marks.len() && (#[trigger] self.marks[j]) is Bound
            &&& forall|j: int|
                self.sticky->0.items <= j < self.marks.len() ==> !((#[trigger] self.marks[j]) is Loose)
        }
        &&& forall|i: int|
            0 <= i < self.marks.len() && (#[trigger] self.marks[i]) is Bound ==> followed(self.marks, i)
                || (self.sticky is Some && self.sticky->0.items <= i)
    }

    /// Sticky frames are tied to what follows, unless the composer has
    /// stopped the region at a frame: the frame was taken note of, and a
    /// group of sticky blocks before it may have been closed for it, but
    /// it did not enter.
    pub open spec fn settles(self) -> bool {
        self.stopped || self.tied()
    }

    /// What holds of the state of every distribution.
    pub open spec fn inv(self) -> bool {
        &&& self.marked()
        &&& self.balanced()
    }

    /// No sticky frame that could have moved on is left without the frame
    /// it stays with.
    pub open spec fn no_bound_frame_last(self) -> bool {
        forall|i: int|
            0 <= i < self.marks.len() && (#[trigger] self.marks[i]) is Bound ==> followed(self.marks, i)
    }
}

/// Later items keep the blocks of earlier ones if each of their blocks
/// stands among the earlier items or is the fresh one.
pub proof fn lemma_keeps_blocks(
    before: Seq<Item>,
    after: Seq<Item>,
    fresh: Option<usize>,
    from: spec_fn(int) -> int,
)
    requires
        forall|i: int|
            0 <= i < after.len() && (#[trigger] after[i]) is Fr && after[i]->Fr_2 is Some ==> (0
                <= from(i) < before.len() && before[from(i)] == after[i]) || (fresh is Some
                && after[i]->Fr_2->0.child == fresh->0),
    ensures
        keeps_blocks(before, after, fresh),
{
    assert forall|kinds: Seq<ChildKind>| #[trigger]
        blocks_ok(before, kinds) && (fresh is Some ==> fresh->0 < kinds.len() && kinds[fresh->0 as int]
            == ChildKind::Single) implies blocks_ok(after, kinds) by {
        assert forall|i: int|
            0 <= i < after.len() && (#[trigger] after[i]) is Fr && after[i]->Fr_2 is Some implies
            after[i]->Fr_2->0.child
            < kinds.len() && kinds[after[i]->Fr_2->0.child as int] == ChildKind::Single by {
            if 0 <= from(i) < before.len() && before[from(i)] == after[i] {
                assert(before[from(i)] is Fr);
            }
        }
    }
}

/// Keeping blocks carries over from step to step.
pub proof fn lemma_keeps_blocks_trans(a: Seq<Item>, b: Seq<Item>, c: Seq<Item>, fresh: Option<usize>)
    requires
        keeps_blocks(a, b, None) || keeps_blocks(a, b, fresh),
        keeps_blocks(b, c, None) || keeps_blocks(b, c, fresh),
    ensures
        keeps_blocks(a, c, fresh),
{
    assert forall|kinds: Seq<ChildKind>| #[trigger]
        blocks_ok(a, kinds) && (fresh is Some ==> fresh->0 < kinds.len() && kinds[fresh->0 as int]
            == ChildKind::Single) implies blocks_ok(c, kinds) by {
        assert(blocks_ok(b, kinds));
    }
}

/// The last item that is not looked past: it is not skippable, and all
/// that follow it are.
pub proof fn lemma_last_solid(items: Seq<Item>, through_abs: bool)
    ensures
        -1 <= last_solid(items, through_abs) < items.len(),
        last_solid(items, through_abs) >= 0 ==> !items[last_solid(items, through_abs)].skippable(
            through_abs,
        ),
        forall|j: int|
            last_solid(items, through_abs) < j < items.len() ==> (#[trigger] items[j]).skippable(
                through_abs,
            ),
    decreases items.len(),
{
    if items.len() > 0 && items.last().skippable(through_abs) {
        let before = items.drop_last();
        lemma_last_solid(before, through_abs);
        assert forall|j: int| last_solid(items, through_abs) < j < items.len() implies (
        #[trigger] items[j]).skippable(through_abs) by {
            if j < before.len() {
                assert(before[j] == items[j]);
            }
        }
    }
}

pub proof fn lemma_used_push(items: Seq<Item>, item: Item)
    ensures
        used(items.push(item)) == used(items) + item.height().raw,
{
    assert(items.push(item).drop_last() == items);
}

pub proof fn lemma_used_update(items: Seq<Item>, k: int, item: Item)
    requires
        0 <= k < items.len(),
    ensures
        used(items.update(k, item)) == used(items) - items[k].height().raw + item.height().raw,
    decreases items.len(),
{
    if k == items.len() - 1 {
        assert(items.update(k, item).drop_last() == items.drop_last());
    } else {
        lemma_used_update(items.drop_last(), k, item);
        assert(items.update(k, item).drop_last() == items.drop_last().update(k, item));
    }
}

pub proof fn lemma_used_remove(items: Seq<Item>, k: int)
    requires
        0 <= k < items.len(),
    ensures
        used(items.remove(k)) == used(items) - items[k].height().raw,
    decreases items.len(),
{
    if k == items.len() - 1 {
        assert(items.remove(k) == items.drop_last());
    } else {
        lemma_used_remove(items.drop_last(), k);
        assert(items.remove(k).drop_last() == items.drop_last().remove(k));
        assert(items.remove(k).last() == items.last());
    }
}

pub proof fn lemma_used_tags(items: Seq<Item>, tags: Seq<Tag>)
    ensures
        used(items + tag_items(tags)) == used(items),
    decreases tags.len(),
{
    if tags.len() == 0 {
        assert(items + tag_items(tags) == items);
    } else {
        lemma_used_tags(items, tags.drop_last());
        assert((items + tag_items(tags)).drop_last() == items + tag_items(tags.drop_last()));
    }
}

/// Spacing keeps the marks in order and the height account exact.
pub proof fn lemma_rel_inv(s: State, amount: Abs, weakness: u8)
    requires
        s.inv(),
    ensures
        s.rel(amount, weakness).inv(),
        keeps_blocks(s.items, s.rel(amount, weakness).items, None),
        s.tied() ==> s.rel(amount, weakness).tied(),
        s.rel(amount, weakness).start == s.start,
        s.rel(amount, weakness).sticky == s.sticky,
        s.rel(amount, weakness).stickable == s.stickable,
{
    let t = s.rel(amount, weakness);
    lemma_last_solid(s.items, false);
    lemma_keeps_blocks(s.items, t.items, None, |i: int| i);
    lemma_used_push(s.items, Item::Abs(amount, weakness));
    let k = last_solid(s.items, false);
    if k >= 0 {
        lemma_used_update(s.items, k, Item::Abs(amount, weakness));
    }
    if s.tied() {
        assert forall|i: int| 0 <= i < t.marks.len() && (#[trigger] t.marks[i]) is Bound implies followed(
            t.marks,
            i,
        ) || (t.sticky is Some && t.sticky->0.items <= i) by {
            assert(s.marks[i] is Bound);
            if followed(s.marks, i) {
                let j = choose|j: int| i < j < s.marks.len() && (#[trigger] s.marks[j]) is Loose;
                assert(t.marks[j] is Loose);
            }
        }
        if t.sticky is Some {
            let j = choose|j: int|
                s.sticky->0.items <= j < s.marks.len() && (#[trigger] s.marks[j]) is Bound;
            assert(t.marks[j] is Bound);
        }
    }
}

/// Trimming keeps the marks in order and the height account exact.
pub proof fn lemma_trim_inv(s: State)
    requires
        s.inv(),
    ensures
        s.trim().inv(),
        keeps_blocks(s.items, s.trim().items, None),
        s.tied() ==> s.trim().tied(),
        s.no_bound_frame_last() ==> s.trim().no_bound_frame_last(),
        s.trim().start == s.start,
        s.trim().sticky == s.sticky,
        s.trim().stickable == s.stickable,
{
    let t = s.trim();
    lemma_last_solid(s.items, false);
    let k = last_solid(s.items, false);
    lemma_keeps_blocks(s.items, t.items, None, |i: int| if t.items != s.items && i >= k {
        i + 1
    } else {
        i
    });
    if k >= 0 && t.items != s.items {
        lemma_used_remove(s.items, k);
        assert(t.items == s.items.remove(k));
        assert(t.marks == s.marks.remove(k));
        assert(forall|j: int| k < j < s.items.len() ==> (#[trigger] s.items[j]).skippable(false));
        assert forall|j: int| k <= j < s.marks.len() implies (#[trigger] s.marks[j]) is Plain by {
            assert(s.items[j].skippable(false) || j == k);
        }
        assert forall|i: int| 0 <= i < t.marks.len() implies (#[trigger] t.marks[i]) == s.marks[if i
            < k {
            i
        } else {
            i + 1
        }] by {}
        assert forall|i: int| 0 <= i < t.marks.len() && followed(s.marks, i) && i < k implies followed(
            t.marks,
            i,
        ) by {
            let j = choose|j: int| i < j < s.marks.len() && (#[trigger] s.marks[j]) is Loose;
            assert(j < k);
            assert(t.marks[j] is Loose);
        }
        assert forall|i: int| 0 <= i < t.marks.len() && (#[trigger] t.marks[i]) is Bound implies i < k
            && s.marks[i] is Bound by {}
        if s.tied() && s.sticky is Some {
            let j = choose|j: int|
                s.sticky->0.items <= j < s.marks.len() && (#[trigger] s.marks[j]) is Bound;
            assert(j < k);
            assert(t.marks[j] is Bound);
        }
    }
}

/// Fractional spacing keeps the marks in order and the height account
/// exact.
pub proof fn lemma_fr_inv(s: State, fr: Fr, weakness: u8)
    requires
        s.inv(),
    ensures
        s.fr(fr, weakness).inv(),
        keeps_blocks(s.items, s.fr(fr, weakness).items, None),
        s.tied() ==> s.fr(fr, weakness).tied(),
        s.fr(fr, weakness).start == s.start,
        s.fr(fr, weakness).sticky == s.sticky,
        s.fr(fr, weakness).stickable == s.stickable,
{
    let t = s.fr(fr, weakness);
    lemma_trim_inv(s);
    lemma_pushed_inv(s.trim(), Item::Fr(fr, weakness, None));
    lemma_keeps_blocks_trans(
        s.items,
        s.trim().items,
        s.trim().pushed(Item::Fr(fr, weakness, None), Mark::Plain).items,
        None,
    );
    lemma_last_solid(s.items, true);
    let k = last_solid(s.items, true);
    if t.items == s.items || (k >= 0 && t.items == s.items.update(k, Item::Fr(fr, weakness, None))) {
        lemma_keeps_blocks(s.items, t.items, None, |i: int| i);
    }
    if k >= 0 {
        lemma_used_update(s.items, k, Item::Fr(fr, weakness, None));
    }
}

/// An item that is no frame keeps the marks in order; one without height
/// keeps the height account exact.
pub proof fn lemma_pushed_inv(s: State, item: Item)
    requires
        s.inv(),
        item.height() == Abs::spec_zero(),
    ensures
        s.pushed(item, Mark::Plain).inv(),
        keeps_blocks(
            s.items,
            s.pushed(item, Mark::Plain).items,
            if item is Fr && item->Fr_2 is Some {
                Some(item->Fr_2->0.child)
            } else {
                None
            },
        ),
        s.tied() ==> s.pushed(item, Mark::Plain).tied(),
{
    let t = s.pushed(item, Mark::Plain);
    lemma_used_push(s.items, item);
    lemma_keeps_blocks(
        s.items,
        t.items,
        if item is Fr && item->Fr_2 is Some {
            Some(item->Fr_2->0.child)
        } else {
            None
        },
        |i: int| i,
    );
    if s.tied() {
        assert forall|i: int| 0 <= i < t.marks.len() && (#[trigger] t.marks[i]) is Bound implies followed(
            t.marks,
            i,
        ) || (t.sticky is Some && t.sticky->0.items <= i) by {
            assert(s.marks[i] is Bound);
            if followed(s.marks, i) {
                let j = choose|j: int| i < j < s.marks.len() && (#[trigger] s.marks[j]) is Loose;
                assert(t.marks[j] is Loose);
            }
        }
        if t.sticky is Some {
            let j = choose|j: int|
                s.sticky->0.items <= j < s.marks.len() && (#[trigger] s.marks[j]) is Bound;
            assert(t.marks[j] is Bound);
        }
    }
}

/// Tags keep the marks in order and the height account exact.
pub proof fn lemma_flushed_inv(s: State, tags: Seq<Tag>)
    requires
        s.inv(),
    ensures
        s.flushed(tags).inv(),
        keeps_blocks(s.items, s.flushed(tags).items, None),
        s.tied() ==> s.flushed(tags).tied(),
        s.no_bound_frame_last() ==> s.flushed(tags).no_bound_frame_last(),
{
    let t = s.flushed(tags);
    lemma_used_tags(s.items, tags);
    lemma_keeps_blocks(s.items, t.items, None, |i: int| i);
    assert forall|i: int| 0 <= i < s.marks.len() && followed(s.marks, i) implies followed(
        t.marks,
        i,
    ) by {
        let j = choose|j: int| i < j < s.marks.len() && (#[trigger] s.marks[j]) is Loose;
        assert(t.marks[j] is Loose);
    }
    assert forall|i: int| 0 <= i < t.marks.len() && (#[trigger] t.marks[i]) is Bound implies i
        < s.marks.len() && s.marks[i] is Bound by {}
    if s.tied() && s.sticky is Some {
        let j = choose|j: int|
            s.sticky->0.items <= j < s.marks.len() && (#[trigger] s.marks[j]) is Bound;
        assert(t.marks[j] is Bound);
    }
}

/// A frame that enters keeps the marks in order and the height account
/// exact, and sticky frames stay tied, if the point to go back to is where
/// the items ended when the frame was taken note of.
pub proof fn lemma_framed_inv(
    s: State,
    checkpoint: Checkpoint,
    tags: Seq<Tag>,
    frame: Frame,
    align: Axes<FixedAlignment>,
    sticky: bool,
)
    requires
        s.inv(),
        checkpoint.items == s.items.len(),
    ensures
        s.noted(sticky, frame.spec_is_empty(), checkpoint).inv(),
        s.noted(sticky, frame.spec_is_empty(), checkpoint).framed(tags, frame, align, sticky).inv(),
        keeps_blocks(
            s.items,
            s.noted(sticky, frame.spec_is_empty(), checkpoint).framed(tags, frame, align, sticky).items,
            None,
        ),
        s.tied() ==> s.noted(sticky, frame.spec_is_empty(), checkpoint).framed(
            tags,
            frame,
            align,
            sticky,
        ).tied(),
{
    let n = s.noted(sticky, frame.spec_is_empty(), checkpoint);
    let mark = n.frame_mark(sticky, frame.spec_is_empty());
    let f = n.took(frame.size.y).flushed(tags);
    let t = n.framed(tags, frame, align, sticky);
    assert(t == f.pushed(Item::Frame(frame, align), mark));
    assert forall|i: int| 0 <= i < t.items.len() && (#[trigger] t.items[i]) is Fr implies i
        < s.items.len() && s.items[i] == t.items[i] by {
        if i >= s.items.len() && i < f.items.len() {
            assert(t.items[i] == tag_items(tags)[i - s.items.len()]);
        }
    }
    lemma_keeps_blocks(s.items, t.items, None, |i: int| i);
    lemma_used_tags(s.items, tags);
    lemma_used_push(f.items, Item::Frame(frame, align));
    let at = f.marks.len() as int;
    assert(t.marks[at] == mark);
    if s.tied() {
        assert forall|i: int| 0 <= i < s.marks.len() && followed(s.marks, i) implies followed(
            t.marks,
            i,
        ) by {
            let j = choose|j: int| i < j < s.marks.len() && (#[trigger] s.marks[j]) is Loose;
            assert(t.marks[j] is Loose);
        }
        assert forall|i: int| 0 <= i < t.marks.len() && (#[trigger] t.marks[i]) is Bound implies followed(
            t.marks,
            i,
        ) || (t.sticky is Some && t.sticky->0.items <= i) by {
            if i < s.marks.len() {
                assert(s.marks[i] is Bound);
                if !followed(s.marks, i) {
                    if mark is Loose {
                        assert(t.marks[at] is Loose);
                    }
                }
            }
        }
        if t.sticky is Some {
            if sticky {
                assert(t.marks[at] is Bound);
            } else {
                let j = choose|j: int|
                    s.sticky->0.items <= j < s.marks.len() && (#[trigger] s.marks[j]) is Bound;
                assert(t.marks[j] is Bound);
            }
        }
    }
}

/// Weak spacing that follows weak spacing collapses with it: the items
/// are as many as before, and one spacing stands where the earlier one
/// stood. It is that of the two which gives way less easily; of two that
/// are equally weak it is the larger.
pub proof fn lemma_weak_spacing_collapses(s: State, amount: Abs, weakness: u8)
    requires
        weakness >= 1,
        last_solid(s.items, false) >= 0,
        s.items[last_solid(s.items, false)] is Abs,
    ensures
        ({
            let k = last_solid(s.items, false);
            let prev = s.items[k]->Abs_0;
            let prev_weakness = s.items[k]->Abs_1;
            let after = s.rel(amount, weakness).items;
            &&& after.len() == s.items.len()
            &&& forall|i: int| 0 <= i < after.len() && i != k ==> after[i] == s.items[i]
            &&& weakness < prev_weakness ==> after[k] == Item::Abs(amount, weakness)
            &&& weakness == prev_weakness ==> after[k] == Item::Abs(amount.max_spec(prev), weakness)
            &&& weakness > prev_weakness ==> after[k] == Item::Abs(prev, prev_weakness)
        }),
{
    lemma_last_solid(s.items, false);
}

pub proof fn lemma_count_push(items: Seq<Item>, item: Item)
    ensures
        count_frames(items.push(item)) == count_frames(items) + if item is Frame {
            1nat
        } else {
            0nat
        },
{
    assert(items.push(item).drop_last() == items);
}

pub proof fn lemma_count_update(items: Seq<Item>, k: int, item: Item)
    requires
        0 <= k < items.len(),
        !(items[k] is Frame),
        !(item is Frame),
    ensures
        count_frames(items.update(k, item)) == count_frames(items),
    decreases items.len(),
{
    if k == items.len() - 1 {
        assert(items.update(k, item).drop_last() == items.drop_last());
    } else {
        lemma_count_update(items.drop_last(), k, item);
        assert(items.update(k, item).drop_last() == items.drop_last().update(k, item));
    }
}

pub proof fn lemma_count_tags(items: Seq<Item>, tags: Seq<Tag>)
    ensures
        count_frames(items + tag_items(tags)) == count_frames(items),
    decreases tags.len(),
{
    if tags.len() == 0 {
        assert(items + tag_items(tags) == items);
    } else {
        lemma_count_tags(items, tags.drop_last());
        assert((items + tag_items(tags)).drop_last() == items + tag_items(tags.drop_last()));
    }
}

/// Spacing adds no frame and takes none away.
pub proof fn lemma_rel_count(s: State, amount: Abs, weakness: u8)
    ensures
        count_frames(s.rel(amount, weakness).items) == count_frames(s.items),
{
    lemma_last_solid(s.items, false);
    lemma_count_push(s.items, Item::Abs(amount, weakness));
    let k = last_solid(s.items, false);
    if k >= 0 && s.items[k] is Abs {
        lemma_count_update(s.items, k, Item::Abs(amount, weakness));
    }
}

/// Once `k` lines have entered, there are `k` more frames among the items.
pub proof fn lemma_lines_count(
    s: State,
    tags: Seq<Tag>,
    lines: Seq<Frame>,
    align: Axes<FixedAlignment>,
    leading: Abs,
    k: nat,
)
    ensures
        count_frames(s.after_lines(tags, lines, align, leading, k).items) == count_frames(s.items) + k,
        count_frames(s.at_line(tags, lines, align, leading, k).items) == count_frames(s.items) + k,
    decreases k,
{
    if k > 0 {
        lemma_lines_count(s, tags, lines, align, leading, (k - 1) as nat);
        let at = s.at_line(tags, lines, align, leading, (k - 1) as nat);
        let line_tags = if k == 1 {
            tags
        } else {
            Seq::empty()
        };
        let noted = at.unstuck(lines[k - 1].spec_is_empty());
        lemma_count_tags(noted.items, line_tags);
        lemma_count_push(noted.items + tag_items(line_tags), Item::Frame(lines[k - 1], align));
        lemma_rel_count(s.after_lines(tags, lines, align, leading, k), leading, 5);
    }
}

/// The spill of a paragraph counts its lines: the lines that it says stand
/// in regions so far are those that stood there before and the frames that
/// this region has taken; and the lines that it keeps are the rest.
pub proof fn lemma_spill_counts_lines(
    s: State,
    work: WorkView,
    lines: Seq<Frame>,
    align: Axes<FixedAlignment>,
    leading: Abs,
    costs: Costs,
    spacing: Rel,
    advance: bool,
    par: Option<usize>,
    placed_before: usize,
    k: nat,
    r: Result<(), Stop>,
    after: State,
    work_after: WorkView,
)
    requires
        placed_before + lines.len() <= usize::MAX,
        s.lines_case(
            work,
            lines,
            align,
            leading,
            costs,
            spacing,
            advance,
            par,
            placed_before,
            k,
            r,
            after,
            work_after,
        ),
        k < lines.len(),
        s.at_line(work.tags, lines, align, leading, k).breaks_before(
            lines[k as int].size.y,
            need_of(lines, k as int, leading, costs),
        ),
    ensures
        work_after.par_spill is Some,
        work_after.par_spill->0.lines_placed == placed_before + (count_frames(after.items)
            - count_frames(s.items)),
        work_after.par_spill->0.frames == lines.skip(k as int),
        work_after.par_spill->0.lines_placed + work_after.par_spill->0.frames.len() == placed_before
            + lines.len(),
{
    lemma_lines_count(s, work.tags, lines, align, leading, k);
}

/// Where placing the lines of a paragraph leaves a spill in a work that
/// held none, the spill counts the lines: those that stood in regions
/// before and the frames that this region has taken.
pub proof fn lemma_new_spill_counts_lines(
    s: State,
    work: WorkView,
    lines: Seq<Frame>,
    align: Axes<FixedAlignment>,
    leading: Abs,
    costs: Costs,
    spacing: Rel,
    advance: bool,
    par: Option<usize>,
    placed_before: usize,
    r: Result<(), Stop>,
    after: State,
    work_after: WorkView,
)
    requires
        placed_before + lines.len() <= usize::MAX,
        work.par_spill is None,
        work_after.par_spill is Some,
        s.lines_outcome(
            work,
            lines,
            align,
            leading,
            costs,
            spacing,
            advance,
            par,
            placed_before,
            r,
            after,
            work_after,
        ),
    ensures
        r == Err::<(), Stop>(Stop::Finish(false)),
        work_after.par_spill->0.lines_placed == placed_before + (count_frames(after.items)
            - count_frames(s.items)),
        work_after.par_spill->0.lines_placed + work_after.par_spill->0.frames.len() == placed_before
            + lines.len(),
{
    let k = choose|k: nat| #[trigger]
        s.lines_case(
            work,
            lines,
            align,
            leading,
            costs,
            spacing,
            advance,
            par,
            placed_before,
            k,
            r,
            after,
            work_after,
        );
    lemma_spill_counts_lines(
        s,
        work,
        lines,
        align,
        leading,
        costs,
        spacing,
        advance,
        par,
        placed_before,
        k,
        r,
        after,
        work_after,
    );
}

/// A first line that is kept with the second is never left alone for want
/// of room: if it is placed in a region although what it needs would have
/// had room in the next, then the second line has room behind it, after
/// the leading. This holds of lines whose heights are not negative, with a
/// leading that is not negative, where what the first line needs is
/// finite.
pub proof fn lemma_first_line_keeps_company(
    s: State,
    tags: Seq<Tag>,
    lines: Seq<Frame>,
    align: Axes<FixedAlignment>,
    leading: Abs,
    costs: Costs,
)
    requires
        spec_prevent_orphans(lines, costs),
        leading.raw >= 0,
        forall|i: int| 0 <= i < lines.len() ==> (#[trigger] lines[i]).size.y.raw >= 0,
        need_of(lines, 0, leading, costs).finite(),
        !s.breaks_before(lines[0].size.y, need_of(lines, 0, leading, costs)),
        s.regions.spec_next_height() is Some,
        s.regions.spec_next_height()->0.fits_spec(need_of(lines, 0, leading, costs)),
    ensures
        s.at_line(tags, lines, align, leading, 1).height().fits_spec(lines[1].size.y),
        !s.at_line(tags, lines, align, leading, 1).breaks_before(
            lines[1].size.y,
            need_of(lines, 1, leading, costs),
        ),
{
    let first = s.after_lines(tags, lines, align, leading, 1);
    assert(s.at_line(tags, lines, align, leading, 0) == s);
    assert(first == s.unstuck(lines[0].spec_is_empty()).framed(tags, lines[0], align, false));
    let last = first.items.len() - 1;
    assert(first.items[last] == Item::Frame(lines[0], align));
    assert(first.items.last() is Frame);
    assert(last_solid(first.items, false) == last);
    assert(lines[1].size.y.raw >= 0);
    assert(lines[0].size.y.raw >= 0);
    if lines.len() == 3 {
        assert(lines[2].size.y.raw >= 0);
    }
}

/// While the height that is left is finite and not negative, the items
/// take no more than the height at the start.
pub proof fn lemma_height_account(s: State)
    requires
        s.balanced(),
        s.height().finite(),
        s.height().raw >= 0,
    ensures
        used(s.items) <= s.start.raw,
        used(s.items) + s.height().raw == s.start.raw,
{
}

/// A region that does not end by force never ends on a sticky frame that
/// could have moved on: in the state in which the region is arranged,
/// every such frame is followed by a frame that is not sticky and holds
/// something.
pub proof fn lemma_sticky_never_last(s: State, init: Checkpoint, tags: Seq<Tag>)
    requires
        s.inv(),
        s.tied(),
        init.items == 0,
    ensures
        s.settled(init, false, tags).no_bound_frame_last(),
        s.settled(init, false, tags).marked(),
{
    if s.items.len() > 0 && all_migratable(s.items) {
        let r = s.restored(init);
        assert(r.items.len() == 0);
        lemma_last_solid(r.items, false);
    } else if s.sticky is Some {
        let c = s.sticky->0;
        let r = State { sticky: None, ..s.restored(c) };
        assert(r.marks == s.marks.take(c.items as int));
        assert forall|i: int| 0 <= i < r.marks.len() && (#[trigger] r.marks[i]) is Bound implies followed(
            r.marks,
            i,
        ) by {
            assert(s.marks[i] is Bound);
            assert(followed(s.marks, i));
            let j = choose|j: int| i < j < s.marks.len() && (#[trigger] s.marks[j]) is Loose;
            assert(j < c.items);
            assert(r.marks[j] is Loose);
        }
        assert(r.marked());
        lemma_trim_marked(r);
    } else {
        lemma_trim_marked(s);
    }
}

/// Trimming keeps the marks in order, and takes no frame away.
pub proof fn lemma_trim_marked(s: State)
    requires
        s.marked(),
    ensures
        s.trim().marked(),
        keeps_blocks(s.items, s.trim().items, None),
        s.no_bound_frame_last() ==> s.trim().no_bound_frame_last(),
{
    let t = s.trim();
    lemma_last_solid(s.items, false);
    let k = last_solid(s.items, false);
    lemma_keeps_blocks(s.items, t.items, None, |i: int| if t.items != s.items && i >= k {
        i + 1
    } else {
        i
    });
    if k >= 0 && t.items != s.items {
        assert(t.items == s.items.remove(k));
        assert(t.marks == s.marks.remove(k));
        assert forall|j: int| k <= j < s.marks.len() implies (#[trigger] s.marks[j]) is Plain by {
            assert(s.items[j].skippable(false) || j == k);
        }
        assert forall|i: int| 0 <= i < t.marks.len() && followed(s.marks, i) && i < k implies followed(
            t.marks,
            i,
        ) by {
            let j = choose|j: int| i < j < s.marks.len() && (#[trigger] s.marks[j]) is Loose;
            assert(j < k);
            assert(t.marks[j] is Loose);
        }
        assert forall|i: int| 0 <= i < t.marks.len() && (#[trigger] t.marks[i]) is Bound implies i < k
            && s.marks[i] is Bound by {}
    }
}

} // verus!
