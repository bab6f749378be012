//! The distributor: it fills one region with the children of a flow.

use vstd::prelude::*;
use crate::abs::Abs;
use crate::abs::Fr;
use crate::abs::Rel;
use crate::cell::hash128;
use crate::cell::Fingerprint;
use crate::child::Child;
use crate::child::LineChild;
use crate::child::MastheadChild;
use crate::child::MultiChild;
use crate::child::MultiSpill;
use crate::child::ParChild;
use crate::child::PlacedChild;
use crate::child::SingleChild;
use crate::child::WrapChild;
use crate::child::kinds;
use crate::diag::Stop;
use crate::engine::Composer;
use crate::cutout::RegionCutout;
use crate::frame::Frame;
use crate::frame::Tag;
use crate::geom::Axes;
use crate::geom::FixedAlignment;
use crate::geom::Region;
use crate::geom::Regions;
use crate::laws::lemma_spill_lines_count;
use crate::model::FrBlock;
use crate::model::Placing;
use crate::model::blocks_ok;
use crate::model::lemma_framed_inv;
use crate::model::lemma_pushed_inv;
use crate::model::Checkpoint;
use crate::model::Item;
use crate::model::Mark;
use crate::model::State;
use crate::model::all_migratable;
use crate::model::has_frame;
use crate::model::last_solid;
use crate::model::lemma_flushed_inv;
use crate::model::lemma_fr_inv;
use crate::model::lemma_last_solid;
use crate::model::lemma_rel_inv;
use crate::model::lemma_trim_inv;
use crate::model::plain_marks;
use crate::model::spec_current_y;
use crate::model::spec_weak_spacing;
use crate::model::tag_items;
use crate::model::count_frames;
use crate::outcome::Moment;
use crate::outcome::chained;
use crate::outcome::float_outcome;
use crate::outcome::rest_of;
use crate::abs::lemma_from_abs;
use crate::elements::Costs;
use crate::lines::line_need;
use crate::lines::need_of;
use crate::work::ParSpill;
use crate::work::Work;
use crate::work::frames_from;

verus! {

/// A point to go back to: a copy of the work, and how many items stood in
/// the region.
#[derive(Debug)]
pub struct Snapshot {
    pub work: Work,
    pub items: usize,
}

impl View for Snapshot {
    type V = Checkpoint;

    open spec fn view(&self) -> Checkpoint {
        Checkpoint { work: self.work@, items: self.items }
    }
}

impl Item {
    /// Whether the item moves on to the next region if the region holds
    /// nothing but such items: a tag, a frame that takes no room and shows
    /// nothing, or a placed frame that does not float.
    pub fn migratable(&self) -> (r: bool)
        ensures
            r == self.spec_migratable(),
    {
        match self {
            Item::Tag(_) => true,
            Item::Frame(frame, _) => frame.is_marker(),
            Item::Placed(_, placing) => !placing.float,
            _ => false,
        }
    }

    /// Whether the search for what spacing rests on looks past the item.
    pub fn is_skippable(&self, through_abs: bool) -> (r: bool)
        ensures
            r == self.skippable(through_abs),
    {
        match self {
            Item::Tag(_) => true,
            Item::Placed(_, _) => true,
            Item::Abs(_, weakness) => *weakness == 0 || through_abs,
            _ => false,
        }
    }
}

/// The state of the distribution into one region.
pub struct Distributor<'r> {
    /// The regions; the height of the first shrinks as items enter.
    pub regions: Regions<'r>,
    /// What has been laid out, not yet arranged.
    pub items: Vec<Item>,
    /// Where to go back to if the region ends on sticky blocks.
    pub sticky: Option<Snapshot>,
    /// Whether the sticky blocks of the current group move on with the
    /// frame that follows them. Nothing while no such group is open. The
    /// first sticky block of a group settles it: the group can move on if
    /// the next region may differ from this one. A group at the very top
    /// of its region cannot, for it would only land at a top again.
    pub stickable: Option<bool>,
    /// One mark for each item.
    pub marks: Ghost<Seq<Mark>>,
    /// Whether the composer has stopped the region at a frame that was
    /// about to enter.
    pub stopped: Ghost<bool>,
    /// The height that was left when the distribution began.
    pub start: Ghost<Abs>,
}

impl<'r> View for Distributor<'r> {
    type V = State<'r>;

    open spec fn view(&self) -> State<'r> {
        State {
            regions: self.regions,
            items: self.items@,
            marks: self.marks@,
            start: self.start@,
            sticky: match self.sticky {
                Some(snapshot) => Some(snapshot@),
                None => None,
            },
            stickable: self.stickable,
            stopped: self.stopped@,
        }
    }
}

/// The position of the last item that is not looked past.
fn find_last_solid(items: &Vec<Item>, through_abs: bool) -> (k: Option<usize>)
    ensures
        match k {
            Some(k) => k < items@.len() && k == last_solid(items@, through_abs),
            None => last_solid(items@, through_abs) == -1,
        },
{
    let mut i: usize = items.len();
    while i > 0
        invariant
            i <= items.len(),
            forall|j: int| i <= j < items.len() ==> (#[trigger] items@[j]).skippable(through_abs),
        decreases i,
    {
        i -= 1;
        if !items[i].is_skippable(through_abs) {
            proof {
                lemma_last_solid(items@, through_abs);
                let k = last_solid(items@, through_abs);
                if k > i {
                    assert(items@[k].skippable(through_abs));
                }
                if k < i {
                    assert(items@[i as int].skippable(through_abs));
                }
            }
            return Some(i);
        }
    }
    proof {
        lemma_last_solid(items@, through_abs);
        let k = last_solid(items@, through_abs);
        if k >= 0 {
            assert(items@[k].skippable(through_abs));
        }
    }
    None
}

/// Takes the composer's answer for the float at `index`: a float that has
/// to wait is queued, to end the region at the next flush; a stop of the
/// composer is handed on.
pub fn float_answered(work: &mut Work, index: usize, answer: Result<bool, Stop>) -> (r: Result<
    (),
    Stop,
>)
    ensures
        float_outcome(old(work)@, index, answer, r, final(work)@),
{
    match answer {
        Ok(waits) => {
            if waits {
                work.floats.push(index);
            }
            Ok(())
        },
        Err(stop) => Err(stop),
    }
}

impl<'r> Distributor<'r> {
    /// The distributor at the start of a region.
    pub fn new(regions: Regions<'r>) -> (d: Distributor<'r>)
        ensures
            d@ == State::initial(regions),
            d@.inv(),
            d@.tied(),
    {
        let d = Distributor {
            regions,
            items: Vec::new(),
            sticky: None,
            stickable: None,
            marks: Ghost(Seq::empty()),
            stopped: Ghost(false),
            start: Ghost(regions.size.y),
        };
        assert(d@.items =~= Seq::<Item>::empty());
        d
    }

    /// Takes a tag: it waits for the next frame.
    pub fn tag(&mut self, work: &mut Work, tag: Tag)
        ensures
            *final(self) == *old(self),
            final(work)@ == old(work)@.with_tags(old(work)@.tags.push(tag)),
    {
        work.tags.push(tag);
    }

    /// Makes items of the waiting tags.
    pub fn flush_tags(&mut self, work: &mut Work)
        requires
            old(self)@.inv(),
        ensures
            old(self)@.leads_to(old(work)@, final(self)@, None),
            final(self)@ == old(self)@.flushed(old(work)@.tags),
            final(work)@ == old(work)@.with_tags(Seq::empty()),
            final(self)@.inv(),
            old(self)@.tied() ==> final(self)@.tied(),
    {
        proof {
            lemma_flushed_inv(self@, work@.tags);
        }
        let mut i: usize = 0;
        while i < work.tags.len()
            invariant
                i <= work.tags@.len(),
                work@ == old(work)@,
                self.items@ == old(self).items@ + tag_items(work.tags@.take(i as int)),
                self.marks@ == old(self).marks@ + plain_marks(i as nat),
                self.regions == old(self).regions,
                self.sticky == old(self).sticky,
                self.stickable == old(self).stickable,
                self.stopped == old(self).stopped,
                self.start == old(self).start,
            decreases work.tags@.len() - i,
        {
            self.items.push(Item::Tag(work.tags[i]));
            proof {
                self.marks@ = self.marks@.push(Mark::Plain);
                assert(self.items@ =~= old(self).items@ + tag_items(work.tags@.take(i + 1)));
                assert(self.marks@ =~= old(self).marks@ + plain_marks((i + 1) as nat));
            }
            i += 1;
        }
        proof {
            assert(work.tags@.take(i as int) == work.tags@);
        }
        work.tags.clear();
        assert(work.tags@ =~= Seq::<Tag>::empty());
    }

    /// Takes relative spacing, measured against the region's base.
    pub fn rel(&mut self, amount: Rel, weakness: u8)
        requires
            old(self)@.inv(),
        ensures
            crate::model::keeps_blocks(old(self).items@, final(self).items@, None),
            final(self)@.sticky == old(self)@.sticky,
            final(self)@ == old(self)@.rel(
                amount.relative_to_spec(old(self).regions.spec_base().y),
                weakness,
            ),
            final(self)@.inv(),
            old(self)@.tied() ==> final(self)@.tied(),
    {
        let amount = amount.relative_to(self.regions.base().y);
        proof {
            lemma_rel_inv(self@, amount, weakness);
        }
        if weakness > 0 && !self.keep_weak_rel_spacing(amount, weakness) {
            return ;
        }
        self.regions.size.y = self.regions.size.y.minus(amount);
        self.items.push(Item::Abs(amount, weakness));
        proof {
            self.marks@ = self.marks@.push(Mark::Plain);
        }
    }

    /// Takes fractional spacing.
    pub fn fr(&mut self, fr: Fr, weakness: u8)
        requires
            old(self)@.inv(),
        ensures
            crate::model::keeps_blocks(old(self).items@, final(self).items@, None),
            final(self)@.sticky == old(self)@.sticky,
            final(self)@ == old(self)@.fr(fr, weakness),
            final(self)@.inv(),
            old(self)@.tied() ==> final(self)@.tied(),
    {
        proof {
            lemma_fr_inv(self@, fr, weakness);
        }
        if weakness > 0 && !self.keep_weak_fr_spacing(fr, weakness) {
            return ;
        }
        self.trim_spacing();
        self.items.push(Item::Fr(fr, weakness, None));
        proof {
            self.marks@ = self.marks@.push(Mark::Plain);
        }
    }

    /// Decides whether weak spacing enters as an item of its own. Where it
    /// collapses with weak spacing before it, what stays of the two is set
    /// in place here; where it vanishes, nothing changes.
    pub fn keep_weak_rel_spacing(&mut self, amount: Abs, weakness: u8) -> (keep: bool)
        requires
            weakness > 0,
        ensures
            keep ==> *final(self) == *old(self) && old(self)@.rel(amount, weakness) == old(self)@.took(
                amount,
            ).pushed(Item::Abs(amount, weakness), Mark::Plain),
            !keep ==> final(self)@ == old(self)@.rel(amount, weakness),
    {
        proof {
            lemma_last_solid(self.items@, false);
        }
        match find_last_solid(&self.items, false) {
            None => true,
            Some(k) => {
                match self.items[k] {
                    Item::Abs(prev_amount, prev_weakness) => {
                        if weakness <= prev_weakness && (weakness < prev_weakness || amount.raw
                            > prev_amount.raw) {
                            self.regions.size.y = self.regions.size.y.minus(
                                amount.minus(prev_amount),
                            );
                            self.items[k] = Item::Abs(amount, weakness);
                        }
                        false
                    },
                    Item::Fr(_, _, None) => false,
                    _ => true,
                }
            },
        }
    }

    /// Decides whether weak fractional spacing enters as an item of its
    /// own. Where it collapses with weak fractional spacing before it, what
    /// stays of the two is set in place here.
    pub fn keep_weak_fr_spacing(&mut self, fr: Fr, weakness: u8) -> (keep: bool)
        requires
            weakness > 0,
        ensures
            keep ==> *final(self) == *old(self) && old(self)@.fr(fr, weakness) == old(self)@.trim().pushed(
                Item::Fr(fr, weakness, None),
                Mark::Plain,
            ),
            !keep ==> final(self)@ == old(self)@.fr(fr, weakness),
    {
        proof {
            lemma_last_solid(self.items@, true);
        }
        match find_last_solid(&self.items, true) {
            None => true,
            Some(k) => {
                match self.items[k] {
                    Item::Fr(prev_fr, prev_weakness, None) => {
                        if prev_weakness >= 1 {
                            if weakness <= prev_weakness && (weakness < prev_weakness || fr.raw
                                > prev_fr.raw) {
                                self.items[k] = Item::Fr(fr, weakness, None);
                            }
                            false
                        } else {
                            true
                        }
                    },
                    _ => true,
                }
            },
        }
    }

    /// Takes the trailing weak spacing away, if there is one.
    pub fn trim_spacing(&mut self)
        requires
            old(self)@.marked(),
        ensures
            crate::model::keeps_blocks(old(self).items@, final(self).items@, None),
            final(self)@.sticky == old(self)@.sticky,
            final(self)@ == old(self)@.trim(),
            old(self)@.inv() ==> final(self)@.inv(),
            old(self)@.inv() && old(self)@.tied() ==> final(self)@.tied(),
    {
        proof {
            if self@.inv() {
                lemma_trim_inv(self@);
            }
            crate::model::lemma_trim_marked(self@);
        }
        match find_last_solid(&self.items, false) {
            None => {},
            Some(k) => {
                match self.items[k] {
                    Item::Abs(amount, _) => {
                        self.regions.size.y = self.regions.size.y.plus(amount);
                        self.items.remove(k);
                        proof {
                            self.marks@ = self.marks@.remove(k as int);
                        }
                    },
                    Item::Fr(_, weakness, None) => {
                        if weakness >= 1 {
                            self.items.remove(k);
                            proof {
                                self.marks@ = self.marks@.remove(k as int);
                            }
                        }
                    },
                    _ => {},
                }
            },
        }
    }

    /// The amount of the trailing weak spacing, or zero.
    pub fn weak_spacing(&self) -> (amount: Abs)
        ensures
            amount == spec_weak_spacing(self.items@),
    {
        match find_last_solid(&self.items, false) {
            None => Abs::zero(),
            Some(k) => {
                match self.items[k] {
                    Item::Abs(amount, _) => amount,
                    _ => Abs::zero(),
                }
            },
        }
    }

    /// The height at which the next item starts: the heights of spacing
    /// and frames so far. Fractional spacing has no height yet, and tags
    /// and placed frames take none.
    pub fn current_y(&self) -> (y: Abs)
        ensures
            y == spec_current_y(self.items@),
    {
        let mut y = Abs::zero();
        let mut i: usize = 0;
        while i < self.items.len()
            invariant
                i <= self.items@.len(),
                y == spec_current_y(self.items@.take(i as int)),
            decreases self.items@.len() - i,
        {
            proof {
                assert(self.items@.take(i + 1).drop_last() == self.items@.take(i as int));
            }
            match self.items[i] {
                Item::Abs(v, _) => {
                    y = y.plus(v);
                },
                Item::Frame(frame, _) => {
                    y = y.plus(frame.height());
                },
                _ => {
                    assert(y.add_spec(Abs::spec_zero()) == y);
                },
            }
            i += 1;
        }
        proof {
            assert(self.items@.take(i as int) == self.items@);
        }
        y
    }

    /// Whether a frame stands among the items.
    pub fn has_frame(&self) -> (r: bool)
        ensures
            r == has_frame(self.items@),
    {
        let mut i: usize = 0;
        while i < self.items.len()
            invariant
                i <= self.items@.len(),
                forall|j: int| 0 <= j < i ==> !((#[trigger] self.items@[j]) is Frame),
            decreases self.items@.len() - i,
        {
            match self.items[i] {
                Item::Frame(_, _) => {
                    return true;
                },
                _ => {},
            }
            i += 1;
        }
        false
    }

    /// Whether every item moves on to the next region if the region ends
    /// now.
    pub fn all_migratable(&self) -> (r: bool)
        ensures
            r == all_migratable(self.items@),
    {
        let mut i: usize = 0;
        while i < self.items.len()
            invariant
                i <= self.items@.len(),
                forall|j: int| 0 <= j < i ==> (#[trigger] self.items@[j]).spec_migratable(),
            decreases self.items@.len() - i,
        {
            if !self.items[i].migratable() {
                return false;
            }
            i += 1;
        }
        true
    }

    /// Takes note of a frame that is about to enter, for the sake of
    /// sticky blocks.
    pub fn note(&mut self, work: &Work, sticky: bool, empty: bool)
        ensures
            final(self)@ == old(self)@.noted(
                sticky,
                empty,
                Checkpoint { work: work@, items: old(self).items.len() },
            ),
    {
        if sticky {
            if self.sticky.is_none() {
                let stickable = match self.stickable {
                    Some(stickable) => stickable,
                    None => self.regions.may_progress(),
                };
                self.stickable = Some(stickable);
                if stickable {
                    self.sticky = Some(self.snapshot(work));
                }
            }
        } else if !empty {
            self.sticky = None;
            self.stickable = None;
        }
    }

    /// Lets a frame enter once the composer has answered for its
    /// footnotes. Where the composer stopped, the stop is handed on and
    /// nothing changes. Otherwise the frame's height is taken, the waiting
    /// tags enter, and the frame after them.
    pub fn place_frame(
        &mut self,
        work: &mut Work,
        frame: Frame,
        align: Axes<FixedAlignment>,
        sticky: bool,
        verdict: Result<(), Stop>,
    ) -> (r: Result<(), Stop>)
        requires
            old(self)@.inv(),
        ensures
            old(self)@.leads_to(old(work)@, final(self)@, None),
            r == verdict,
            r is Err ==> final(self)@ == old(self)@.halted() && *final(work) == *old(work),
            r is Ok ==> final(self)@ == old(self)@.framed(old(work)@.tags, frame, align, sticky)
                && final(work)@ == old(work)@.with_tags(Seq::empty()),
    {
        if verdict.is_err() {
            proof {
                self.stopped@ = true;
            }
            return verdict;
        }
        let ghost mark = self@.frame_mark(sticky, frame.spec_is_empty());
        self.flush_tags(work);
        self.regions.size.y = self.regions.size.y.minus(frame.height());
        self.items.push(Item::Frame(frame, align));
        proof {
            self.marks@ = self.marks@.push(mark);
        }
        verdict
    }

    /// Takes the frame of a line or a block. The composer answers for the
    /// footnotes in it and can stop the region there.
    pub fn frame<C: Composer>(
        &mut self,
        composer: &mut C,
        work: &mut Work,
        frame: Frame,
        align: Axes<FixedAlignment>,
        sticky: bool,
        breakable: bool,
    ) -> (r: Result<(), Stop>)
        requires
            old(self)@.inv(),
        ensures
            old(self)@.leads_to(old(work)@, final(self)@, None),
            final(self)@.inv(),
            old(self)@.frame_outcome(
                old(work)@,
                frame,
                align,
                sticky,
                r is Err,
                final(self)@,
                final(work)@,
            ),
            old(self)@.settles() ==> final(self)@.settles(),
    {
        proof {
            lemma_framed_inv(
                self@,
                Checkpoint { work: work@, items: self.items.len() },
                work@.tags,
                frame,
                align,
                sticky,
            );
        }
        self.note(work, sticky, frame.is_empty());
        let verdict = composer.footnotes(&self.regions, &frame, frame.height(), breakable, true);
        self.place_frame(work, frame, align, sticky, verdict)
    }

    /// Whether the region ends before a frame of the given height that
    /// needs `need` free.
    pub fn breaks_before(&self, height: Abs, need: Abs) -> (r: bool)
        ensures
            r == self@.breaks_before(height, need),
    {
        if !self.regions.size.y.fits(height) && self.regions.may_progress() {
            return true;
        }
        if !self.regions.size.y.fits(need) {
            match self.regions.next_height() {
                Some(next) => next.fits(need),
                None => false,
            }
        } else {
            false
        }
    }

    /// Takes a line of a paragraph. The region ends before the line if
    /// the line has no room and the next region may differ, or if what
    /// the line needs together with the lines it must not be parted from
    /// has no room here but has room in the next region.
    pub fn line<C: Composer>(&mut self, composer: &mut C, work: &mut Work, line: &LineChild) -> (r:
        Result<(), Stop>)
        requires
            old(self)@.inv(),
        ensures
            old(self)@.line_outcome(old(work)@, *line, r, final(self)@, final(work)@),
            old(self)@.leads_to(old(work)@, final(self)@, None),
            final(self)@.inv(),
            old(self)@.settles() ==> final(self)@.settles(),
    {
        if self.breaks_before(line.frame.height(), line.need) {
            return Err(Stop::Finish(false));
        }
        self.frame(composer, work, line.frame, line.align, false, false)
    }

    /// What the distributor keeps of a placed child.
    pub fn placing(placed: &PlacedChild) -> (r: Placing)
        ensures
            r == (Placing {
                align_x: placed.align_x,
                align_y: placed.align_y,
                delta: placed.delta,
                float: placed.float,
            }),
    {
        Placing {
            align_x: placed.align_x,
            align_y: placed.align_y,
            delta: placed.delta,
            float: placed.float,
        }
    }

    /// Lets an item that takes no height enter once the composer has
    /// answered for the footnotes in its frame: on a stop nothing changes,
    /// else the waiting tags enter, and the item after them.
    pub fn place_item(&mut self, work: &mut Work, item: Item, verdict: Result<(), Stop>) -> (r: Result<
        (),
        Stop,
    >)
        requires
            old(self)@.inv(),
            item.height() == Abs::spec_zero(),
            !(item is Frame),
        ensures
            old(self)@.leads_to(
                old(work)@,
                final(self)@,
                if item is Fr && item->Fr_2 is Some {
                    Some(item->Fr_2->0.child)
                } else {
                    None
                },
            ),
            r == verdict,
            final(self)@.inv(),
            r is Err ==> *final(self) == *old(self) && *final(work) == *old(work),
            r is Ok ==> final(self)@ == old(self)@.flushed(old(work)@.tags).pushed(item, Mark::Plain)
                && final(work)@ == old(work)@.with_tags(Seq::empty()),
            old(self)@.tied() ==> final(self)@.tied(),
    {
        if verdict.is_err() {
            return verdict;
        }
        proof {
            lemma_flushed_inv(self@, work@.tags);
            lemma_pushed_inv(self@.flushed(work@.tags), item);
            crate::model::lemma_keeps_blocks_trans(
                self@.items,
                self@.flushed(work@.tags).items,
                self@.flushed(work@.tags).pushed(item, Mark::Plain).items,
                if item is Fr && item->Fr_2 is Some {
                    Some(item->Fr_2->0.child)
                } else {
                    None
                },
            );
        }
        self.flush_tags(work);
        self.items.push(item);
        proof {
            self.marks@ = self.marks@.push(Mark::Plain);
        }
        verdict
    }

    /// Takes a block that does not break. The block is laid out against
    /// the region's base. A block of fractional height enters as such, to
    /// be laid out again when the region is arranged. Any other block ends
    /// the region if it has no room and the next region may differ, and
    /// else enters as a frame. `index` says which child the block is.
    pub fn single<C: Composer>(
        &mut self,
        composer: &mut C,
        work: &mut Work,
        single: &mut SingleChild,
        index: usize,
    ) -> (r: Result<(), Stop>)
        requires
            old(self)@.inv(),
        ensures
            *final(single) == old(single).with_cell(final(single).cell),
            final(single).cell.filled_from(
                old(single).cell,
                hash128(
                    (Region {
                        size: old(self).regions.spec_base(),
                        expand: old(self).regions.expand,
                    }).key_bytes(),
                ),
            ),
            old(self)@.single_outcome(
                old(work)@,
                *old(single),
                index,
                final(single).cell.slot->0.value,
                r,
                final(self)@,
                final(work)@,
            ),
            old(self)@.leads_to(old(work)@, final(self)@, Some(index)),
            final(self)@.inv(),
            old(self)@.settles() ==> final(self)@.settles(),
    {
        let region = Region::new(self.regions.base(), self.regions.expand);
        let frame = match single.layout(composer, region) {
            Ok(frame) => frame,
            Err(error) => {
                return Err(Stop::Error(error));
            },
        };
        match single.fr {
            Some(fr) => {
                let verdict = composer.footnotes(&self.regions, &frame, Abs::zero(), false, true);
                let block = FrBlock { child: index, align_x: single.align.x };
                return self.place_item(work, Item::Fr(fr, 0, Some(block)), verdict);
            },
            None => {},
        }
        if !self.regions.size.y.fits(frame.height()) && self.regions.may_progress() {
            return Err(Stop::Finish(false));
        }
        self.frame(composer, work, frame, single.align, single.sticky, false)
    }

    /// Takes a block that can break. A region that is full ends here.
    /// The block is laid out into the regions. If its first frame is empty
    /// while a later one is not, and the next region may differ, the whole
    /// block moves on, so that nothing invisible stays behind. Otherwise
    /// the first frame enters; where more frames follow, the rest is kept
    /// as a spill, the block is done with, and the region ends.
    pub fn multi<C: Composer>(
        &mut self,
        composer: &mut C,
        work: &mut Work,
        multi: &mut MultiChild,
        index: usize,
    ) -> (r: Result<(), Stop>)
        requires
            old(self)@.inv(),
            old(work).cursor < usize::MAX,
            old(work).spill is None,
        ensures
            final(multi).same_block(old(multi)),
            old(self).regions.spec_is_full() ==> *final(multi) == *old(multi),
            !old(self).regions.spec_is_full() ==> final(multi).cell.filled_from(
                old(multi).cell,
                hash128(old(self).regions.key_bytes()),
            ),
            old(self)@.multi_outcome(
                old(work)@,
                *old(multi),
                index,
                final(multi).cell.slot,
                r,
                final(self)@,
                final(work)@,
            ),
            old(self)@.leads_to(old(work)@, final(self)@, None),
            final(self)@.inv(),
            r is Ok ==> final(work)@.cursor == old(work)@.cursor,
            old(self)@.settles() ==> final(self)@.settles(),
    {
        if self.regions.is_full() {
            return Err(Stop::Finish(false));
        }
        let (frame, spill) = match multi.layout(composer, self.regions, index) {
            Ok(pair) => pair,
            Err(error) => {
                return Err(Stop::Error(error));
            },
        };
        let later = match &spill {
            Some(spill) => spill.exist_non_empty_frame,
            None => false,
        };
        if frame.is_empty() && later && self.regions.may_progress() {
            return Err(Stop::Finish(false));
        }
        let entered = self.frame(composer, work, frame, multi.align, multi.sticky, true);
        if entered.is_err() {
            return entered;
        }
        match spill {
            Some(spill) => {
                work.spill = Some(spill);
                work.advance();
                Err(Stop::Finish(false))
            },
            None => Ok(()),
        }
    }

    /// Takes what is left of a block that broke. In a region that is full
    /// the spill waits on. Otherwise the block's frame for this region
    /// enters; where more frames follow, the rest is kept as a spill again
    /// and the region ends.
    pub fn multi_spill<C: Composer>(
        &mut self,
        composer: &mut C,
        work: &mut Work,
        multi: &mut MultiChild,
        spill: MultiSpill,
    ) -> (r: Result<(), Stop>)
        requires
            old(self)@.inv(),
        ensures
            final(multi).same_block(old(multi)),
            old(self).regions.spec_is_full() ==> *final(multi) == *old(multi),
            !old(self).regions.spec_is_full() ==> final(multi).cell.filled_from(
                old(multi).cell,
                hash128(MultiSpill::spec_pod_key(spill@, old(self).regions)),
            ),
            old(self)@.multi_spill_outcome(
                old(work)@,
                spill@,
                *old(multi),
                final(multi).cell.slot,
                r,
                final(self)@,
                final(work)@,
            ),
            old(self)@.leads_to(old(work)@, final(self)@, None),
            final(self)@.inv(),
            final(work)@.cursor == old(work)@.cursor,
            r is Ok ==> final(work)@.spill == old(work)@.spill,
            old(self)@.settles() ==> final(self)@.settles(),
            final(work)@.spill is Some && old(work)@.spill is None ==> final(work)@.spill->0.multi
                == spill.multi,
            final(work)@.par_spill == old(work)@.par_spill,
    {
        if self.regions.is_full() {
            work.spill = Some(spill);
            return Err(Stop::Finish(false));
        }
        let align = spill.align(multi);
        let ghost index = spill.multi;
        let (frame, spill) = match spill.layout(composer, multi, self.regions) {
            Ok(pair) => pair,
            Err(error) => {
                return Err(Stop::Error(error));
            },
        };
        let entered = self.frame(composer, work, frame, align, false, true);
        if entered.is_err() {
            return entered;
        }
        match spill {
            Some(spill) => {
                work.spill = Some(spill);
                Err(Stop::Finish(false))
            },
            None => Ok(()),
        }
    }

    /// Takes a placed child. A float is handed to the composer, with the
    /// trailing weak spacing given back to the region for the time of the
    /// call, since the spacing goes if the region ends there; a float that
    /// has to wait is queued. Any other placed child is laid out against
    /// the region's base and enters as a placed frame, which takes no
    /// height.
    pub fn placed<C: Composer>(
        &mut self,
        composer: &mut C,
        work: &mut Work,
        placed: &mut PlacedChild,
        index: usize,
    ) -> (r: Result<(), Stop>)
        requires
            old(self)@.inv(),
        ensures
            !old(placed).float ==> *final(placed) == old(placed).with_cell(final(placed).cell)
                && final(placed).cell.filled_from(
                old(placed).cell,
                hash128(old(self).regions.spec_base().key_bytes()),
            ),
            old(self)@.placed_outcome(
                old(work)@,
                *old(placed),
                index,
                final(placed).cell.slot,
                r,
                final(self)@,
                final(work)@,
            ),
            old(self)@.leads_to(old(work)@, final(self)@, None),
            final(self)@.inv(),
            old(self)@.tied() ==> final(self)@.tied(),
            old(self)@.settles() ==> final(self)@.settles(),
            final(work)@.cursor == old(work)@.cursor,
            final(work)@.spill == old(work)@.spill,
            final(work)@.par_spill == old(work)@.par_spill,
    {
        if placed.float {
            let lent = self.lent();
            let has_frame = self.has_frame();
            let answer = composer.float(placed, &lent, has_frame, true);
            float_answered(work, index, answer)
        } else {
            let placing = Distributor::placing(placed);
            let frame = match placed.layout(composer, self.regions.base()) {
                Ok(frame) => frame,
                Err(error) => {
                    return Err(Stop::Error(error));
                },
            };
            let verdict = composer.footnotes(&self.regions, &frame, Abs::zero(), true, true);
            self.place_item(work, Item::Placed(frame, placing), verdict)
        }
    }

    /// The regions as the composer sees them while it handles an insertion:
    /// with the trailing weak spacing given back, since the spacing goes if
    /// the region ends there.
    pub open spec fn spec_lent(&self) -> Regions<'r> {
        Regions {
            size: Axes {
                x: self.regions.size.x,
                y: self.regions.size.y.add_spec(spec_weak_spacing(self.items@)),
            },
            expand: self.regions.expand,
            full: self.regions.full,
            backlog: self.regions.backlog,
            last: self.regions.last,
        }
    }

    pub fn lent(&self) -> (regions: Regions<'r>)
        ensures
            regions == self.spec_lent(),
    {
        Regions {
            size: Axes { x: self.regions.size.x, y: self.regions.size.y.plus(self.weak_spacing()) },
            expand: self.regions.expand,
            full: self.regions.full,
            backlog: self.regions.backlog,
            last: self.regions.last,
        }
    }

    /// Takes a wrap: the composer makes a cutout of it, from the height at
    /// which the next item starts, and may have the region laid out again.
    /// The distributor itself stays as it is.
    pub fn wrap<C: Composer>(&mut self, composer: &mut C, wrap: &mut WrapChild) -> (r: Result<(), Stop>)
        ensures
            final(self)@ == old(self)@,
    {
        let lent = self.lent();
        let current_y = self.current_y();
        let has_frame = self.has_frame();
        composer.wrap(wrap, &lent, current_y, has_frame)
    }

    /// Takes a masthead: the composer makes a cutout of it, from the height
    /// at which the next item starts, and may have the region laid out
    /// again. The distributor itself stays as it is.
    pub fn masthead<C: Composer>(&mut self, composer: &mut C, masthead: &mut MastheadChild) -> (r:
        Result<(), Stop>)
        ensures
            final(self)@ == old(self)@,
    {
        let lent = self.lent();
        let current_y = self.current_y();
        let has_frame = self.has_frame();
        composer.masthead(masthead, &lent, current_y, has_frame)
    }

    /// Places the lines of a paragraph, one after the other, with the
    /// leading between two of them as weak spacing and the spacing below
    /// the paragraph after the last. Where the region ends before a line,
    /// that line and those after it are kept as a spill, which counts the
    /// lines that stand in regions so far: `lines_placed_before` and those
    /// placed here. The paragraph is then done with if `advance_on_spill`
    /// is set, as it is for a paragraph that was not a spill already. `par`
    /// says which child the paragraph is, where its lines may have to be
    /// broken again.
    pub fn process_par_lines<C: Composer>(
        &mut self,
        composer: &mut C,
        work: &mut Work,
        frames: Vec<Frame>,
        align: Axes<FixedAlignment>,
        leading: Abs,
        costs: Costs,
        spacing: Rel,
        advance_on_spill: bool,
        par: Option<usize>,
        lines_placed_before: usize,
    ) -> (r: Result<(), Stop>)
        requires
            old(self)@.inv(),
            lines_placed_before + frames@.len() <= usize::MAX,
            advance_on_spill ==> old(work).cursor < usize::MAX,
        ensures
            old(self)@.leads_to(old(work)@, final(self)@, None),
            final(self)@.inv(),
            old(self)@.lines_outcome(
                old(work)@,
                frames@,
                align,
                leading,
                costs,
                spacing,
                advance_on_spill,
                par,
                lines_placed_before,
                r,
                final(self)@,
                final(work)@,
            ),
            old(self)@.settles() ==> final(self)@.settles(),
            r is Ok ==> final(work)@.cursor == old(work)@.cursor && final(work)@.par_spill
                == old(work)@.par_spill,
            final(work)@.spill == old(work)@.spill,
            final(work)@.floats == old(work)@.floats,
            final(work)@.cursor == old(work)@.cursor || (advance_on_spill && final(work)@.cursor
                == old(work)@.cursor + 1),
            final(work)@.par_spill == old(work)@.par_spill || (final(work)@.par_spill is Some
                && final(work)@.par_spill->0.par == par && final(work)@.par_spill->0.lines_placed
                + final(work)@.par_spill->0.frames.len() <= usize::MAX),
    {
        let n = frames.len();
        let ghost s0 = self@;
        let ghost w0 = work@;
        let mut i: usize = 0;
        while i < n
            invariant
                n == frames@.len(),
                i <= n,
                s0 == old(self)@,
                w0 == old(work)@,
                s0.leads_to(w0, self@, None),
                self@.sticky is Some ==> self@.sticky == s0.sticky,
                lines_placed_before + n <= usize::MAX,
                advance_on_spill ==> w0.cursor < usize::MAX,
                self@ == s0.after_lines(w0.tags, frames@, align, leading, i as nat),
                self@.inv(),
                s0.settles() ==> self@.settles(),
                self.regions.spec_base() == s0.regions.spec_base(),
                work@ == if i == 0 {
                    w0
                } else {
                    w0.with_tags(Seq::empty())
                },
                forall|j: nat|
                    j < i ==> !(#[trigger] s0.at_line(w0.tags, frames@, align, leading, j)).breaks_before(
                        frames@[j as int].size.y,
                        need_of(frames@, j as int, leading, costs),
                    ),
            decreases n - i,
        {
            if i > 0 {
                proof {
                    lemma_from_abs(leading, self.regions.spec_base().y);
                }
                self.rel(Rel::from_abs(leading), 5);
            }
            assert(self@ == s0.at_line(w0.tags, frames@, align, leading, i as nat));
            let frame = frames[i];
            let need = line_need(&frames, i, leading, costs);
            if self.breaks_before(frame.height(), need) {
                let remaining = frames_from(&frames, i);
                work.par_spill = Some(
                    ParSpill {
                        frames: remaining,
                        align,
                        leading,
                        costs,
                        spacing,
                        par,
                        lines_placed: lines_placed_before + i,
                    },
                );
                if advance_on_spill {
                    work.advance();
                }
                proof {
                    assert(s0.lines_case(
                        w0,
                        frames@,
                        align,
                        leading,
                        costs,
                        spacing,
                        advance_on_spill,
                        par,
                        lines_placed_before,
                        i as nat,
                        Err::<(), Stop>(Stop::Finish(false)),
                        self@,
                        work@,
                    ));
                }
                return Err(Stop::Finish(false));
            }
            let entered = self.frame(composer, work, frame, align, false, false);
            if entered.is_err() {
                proof {
                    assert(s0.lines_case(
                        w0,
                        frames@,
                        align,
                        leading,
                        costs,
                        spacing,
                        advance_on_spill,
                        par,
                        lines_placed_before,
                        i as nat,
                        entered,
                        self@,
                        work@,
                    ));
                }
                return entered;
            }
            i += 1;
        }
        let resolved = spacing.relative_to(self.regions.base().y);
        proof {
            lemma_from_abs(resolved, self.regions.spec_base().y);
        }
        self.rel(Rel::from_abs(resolved), 4);
        proof {
            assert(s0.lines_case(
                w0,
                frames@,
                align,
                leading,
                costs,
                spacing,
                advance_on_spill,
                par,
                lines_placed_before,
                n as nat,
                Ok::<(), Stop>(()),
                self@,
                work@,
            ));
        }
        Ok(())
    }

    /// Places the lines of a paragraph that has just been broken into
    /// lines: the spacing above the paragraph enters as weak spacing, then
    /// the lines. `has_cutouts` says whether the lines were broken beside
    /// cutouts; a spill then remembers the paragraph, so that the rest can
    /// be broken again where no cutout is left.
    pub fn par_lines<C: Composer>(
        &mut self,
        composer: &mut C,
        work: &mut Work,
        par: &ParChild,
        index: usize,
        has_cutouts: bool,
        frames: Vec<Frame>,
    ) -> (r: Result<(), Stop>)
        requires
            old(self)@.inv(),
            old(work).cursor < usize::MAX,
        ensures
            old(self)@.leads_to(old(work)@, final(self)@, None),
            final(self)@.inv(),
            old(self)@.rel(
                par.spacing.relative_to_spec(old(self).regions.spec_base().y),
                4,
            ).lines_outcome(
                old(work)@,
                frames@,
                par.align,
                par.leading,
                par.costs,
                par.spacing,
                true,
                if has_cutouts {
                    Some(index)
                } else {
                    None
                },
                0,
                r,
                final(self)@,
                final(work)@,
            ),
            old(self)@.settles() ==> final(self)@.settles(),
            r is Ok ==> final(work)@.cursor == old(work)@.cursor && final(work)@.par_spill
                == old(work)@.par_spill,
            final(work)@.spill == old(work)@.spill,
            final(work)@.floats == old(work)@.floats,
            final(work)@.cursor == old(work)@.cursor || final(work)@.cursor == old(work)@.cursor + 1,
            final(work)@.par_spill == old(work)@.par_spill || (final(work)@.par_spill is Some && (
            final(work)@.par_spill->0.par is Some ==> final(work)@.par_spill->0.par == Some(index))
                && final(work)@.par_spill->0.lines_placed + final(work)@.par_spill->0.frames.len()
                <= usize::MAX),
    {
        let spacing = par.spacing.relative_to(self.regions.base().y);
        proof {
            lemma_from_abs(spacing, self.regions.spec_base().y);
        }
        self.rel(Rel::from_abs(spacing), 4);
        let par_ref = if has_cutouts {
            Some(index)
        } else {
            None
        };
        assert(frames@.len() == frames.len());
        let ghost mid = self@;
        let r = self.process_par_lines(
            composer,
            work,
            frames,
            par.align,
            par.leading,
            par.costs,
            par.spacing,
            true,
            par_ref,
            0,
        );
        proof {
            crate::model::lemma_keeps_blocks_trans(old(self)@.items, mid.items, self@.items, None);
        }
        r
    }

    /// Takes a paragraph whose layout was put off. The paragraph is broken
    /// into lines beside the cutouts of the column, from the height at
    /// which the next item starts; then its lines are placed. Only an error
    /// of the engine, a stop of the composer or the end of the region make
    /// this fail.
    pub fn par<C: Composer>(
        &mut self,
        composer: &mut C,
        work: &mut Work,
        par: &ParChild,
        index: usize,
    ) -> (r: Result<(), Stop>)
        requires
            old(self)@.inv(),
            old(work).cursor < usize::MAX,
        ensures
            old(self)@.par_outcome(old(work)@, *par, index, r, final(self)@, final(work)@),
            old(self)@.leads_to(old(work)@, final(self)@, None),
            final(self)@.inv(),
            old(self)@.settles() ==> final(self)@.settles(),
            r is Ok ==> final(work)@.cursor == old(work)@.cursor && final(work)@.par_spill
                == old(work)@.par_spill,
            final(work)@.spill == old(work)@.spill,
            final(work)@.floats == old(work)@.floats,
            final(work)@.cursor == old(work)@.cursor || final(work)@.cursor == old(work)@.cursor + 1,
            final(work)@.par_spill == old(work)@.par_spill || (final(work)@.par_spill is Some && (
            final(work)@.par_spill->0.par is Some ==> final(work)@.par_spill->0.par == Some(index))
                && final(work)@.par_spill->0.lines_placed + final(work)@.par_spill->0.frames.len()
                <= usize::MAX),
    {
        let y_offset = self.current_y();
        let cutouts = composer.column_cutouts();
        let has_cutouts = cutouts.len() > 0;
        let frames = match par.layout(composer, cutouts.as_slice(), y_offset) {
            Ok(frames) => frames,
            Err(error) => {
                return Err(Stop::Error(error));
            },
        };
        self.par_lines(composer, work, par, index, has_cutouts, frames)
    }

    /// Takes what is left of a paragraph. In a region that is full the
    /// spill waits on. If the paragraph's lines were broken beside cutouts
    /// and the column has none now, the paragraph is broken into lines
    /// again, at full width, and the lines that stand in regions already
    /// are passed over; else the lines of the spill are placed as they are.
    pub fn par_spill<C: Composer>(
        &mut self,
        composer: &mut C,
        work: &mut Work,
        children: &[Child],
        spill: ParSpill,
    ) -> (r: Result<(), Stop>)
        requires
            old(self)@.inv(),
            spill@.lines_placed + spill@.frames.len() <= usize::MAX,
            spill.par is Some ==> spill.par->0 < children@.len() && children@[spill.par->0 as int] is Par,
        ensures
            old(self)@.par_spill_outcome(old(work)@, spill@, r, final(self)@, final(work)@),
            old(work)@.par_spill is None && final(work)@.par_spill is Some
                ==> final(work)@.par_spill->0.lines_placed == spill.lines_placed + (count_frames(
                final(self)@.items,
            ) - count_frames(old(self)@.items)),
            old(self)@.leads_to(old(work)@, final(self)@, None),
            final(self)@.inv(),
            old(self)@.settles() ==> final(self)@.settles(),
            r is Ok ==> final(work)@.par_spill == old(work)@.par_spill,
            final(work)@.cursor == old(work)@.cursor,
            final(work)@.spill == old(work)@.spill,
            final(work)@.floats == old(work)@.floats,
            final(work)@.par_spill == old(work)@.par_spill || (final(work)@.par_spill is Some && (
            final(work)@.par_spill->0.par is Some ==> final(work)@.par_spill->0.par == spill.par)
                && final(work)@.par_spill->0.lines_placed >= spill.lines_placed
                && final(work)@.par_spill->0.lines_placed + final(work)@.par_spill->0.frames.len()
                <= usize::MAX),
    {
        if self.regions.is_full() {
            work.par_spill = Some(spill);
            return Err(Stop::Finish(false));
        }
        let cutouts = composer.column_cutouts();
        self.spill_lines(composer, work, children, spill, cutouts.as_slice())
    }

    /// Places what was left of a paragraph beside the cutouts of the
    /// column. If the paragraph's lines were broken beside cutouts and the
    /// column has none now, the paragraph is broken into lines again, at
    /// full width, and the lines that stand in regions already are passed
    /// over; else the lines of the spill are placed as they are.
    pub fn spill_lines<C: Composer>(
        &mut self,
        composer: &mut C,
        work: &mut Work,
        children: &[Child],
        spill: ParSpill,
        cutouts: &[RegionCutout],
    ) -> (r: Result<(), Stop>)
        requires
            old(self)@.inv(),
            spill@.lines_placed + spill@.frames.len() <= usize::MAX,
            spill.par is Some ==> spill.par->0 < children@.len() && children@[spill.par->0 as int] is Par,
        ensures
            old(self)@.spill_lines_outcome(
                old(work)@,
                spill@,
                cutouts@.len() == 0,
                r,
                final(self)@,
                final(work)@,
            ),
            old(work)@.par_spill is None && final(work)@.par_spill is Some
                ==> final(work)@.par_spill->0.lines_placed == spill.lines_placed + (count_frames(
                final(self)@.items,
            ) - count_frames(old(self)@.items)),
            old(self)@.leads_to(old(work)@, final(self)@, None),
            final(self)@.inv(),
            old(self)@.settles() ==> final(self)@.settles(),
            r is Ok ==> final(work)@.par_spill == old(work)@.par_spill,
            final(work)@.cursor == old(work)@.cursor,
            final(work)@.spill == old(work)@.spill,
            final(work)@.floats == old(work)@.floats,
            final(work)@.par_spill == old(work)@.par_spill || (final(work)@.par_spill is Some && (
            final(work)@.par_spill->0.par is Some ==> final(work)@.par_spill->0.par == spill.par)
                && final(work)@.par_spill->0.lines_placed >= spill.lines_placed
                && final(work)@.par_spill->0.lines_placed + final(work)@.par_spill->0.frames.len()
                <= usize::MAX),
    {
        let ghost s0 = self@;
        let ghost w0 = work@;
        let ghost kept = spill@;
        let r = match spill.par {
            Some(index) if cutouts.len() == 0 => {
                match &children[index] {
                    Child::Par(par) => {
                        let y_offset = self.current_y();
                        match par.layout(composer, cutouts, y_offset) {
                            Ok(all) => {
                                assert(all@.len() == all.len());
                                self.spill_relaid(composer, work, spill, all)
                            },
                            Err(error) => Err(Stop::Error(error)),
                        }
                    },
                    _ => {
                        assert(false);
                        Ok(())
                    },
                }
            },
            _ => self.process_par_lines(
                composer,
                work,
                spill.frames,
                spill.align,
                spill.leading,
                spill.costs,
                spill.spacing,
                false,
                spill.par,
                spill.lines_placed,
            ),
        };
        proof {
            if w0.par_spill is None && work@.par_spill is Some {
                lemma_spill_lines_count(s0, w0, kept, cutouts@.len() == 0, r, self@, work@);
            }
        }
        r
    }

    /// Places the lines that the engine has made anew of a spilled
    /// paragraph: the lines that stand in regions already are passed over,
    /// and the rest is placed.
    pub fn spill_relaid<C: Composer>(
        &mut self,
        composer: &mut C,
        work: &mut Work,
        spill: ParSpill,
        all: Vec<Frame>,
    ) -> (r: Result<(), Stop>)
        requires
            old(self)@.inv(),
        ensures
            old(self)@.relaid_outcome(old(work)@, spill@, all@, r, final(self)@, final(work)@),
            old(self)@.leads_to(old(work)@, final(self)@, None),
            final(self)@.inv(),
            old(self)@.settles() ==> final(self)@.settles(),
            r is Ok ==> final(work)@.par_spill == old(work)@.par_spill,
            final(work)@.cursor == old(work)@.cursor,
            final(work)@.spill == old(work)@.spill,
            final(work)@.floats == old(work)@.floats,
            final(work)@.par_spill == old(work)@.par_spill || (final(work)@.par_spill is Some && (
            final(work)@.par_spill->0.par is Some ==> final(work)@.par_spill->0.par == spill.par)
                && final(work)@.par_spill->0.lines_placed >= spill.lines_placed
                && final(work)@.par_spill->0.lines_placed + final(work)@.par_spill->0.frames.len()
                <= usize::MAX),
    {
        let frames = frames_from(&all, spill.lines_placed);
        assert(all@.len() == all.len());
        assert(frames@ =~= rest_of(all@, spill.lines_placed));
        self.process_par_lines(
            composer,
            work,
            frames,
            spill.align,
            spill.leading,
            spill.costs,
            spill.spacing,
            false,
            None,
            spill.lines_placed,
        )
    }

    /// Takes the child at `index`, which is the one that the work is at.
    /// On success the work is still at that child.
    pub fn child<C: Composer>(
        &mut self,
        composer: &mut C,
        work: &mut Work,
        children: &mut [Child],
        index: usize,
    ) -> (r: Result<(), Stop>)
        requires
            old(self)@.inv(),
            blocks_ok(old(self).items@, kinds(old(children)@)),
            old(work)@.wf(kinds(old(children)@)),
            old(work).spill is None,
            index == old(work).cursor,
            index < old(children)@.len(),
        ensures
            old(self)@.child_outcome(
                old(work)@,
                old(children)@[index as int],
                index,
                final(children)@[index as int],
                r,
                final(self)@,
                final(work)@,
            ),
            final(children)@.len() == old(children)@.len(),
            forall|j: int|
                0 <= j < old(children)@.len() && j != index ==> (#[trigger] final(children)@[j])
                    == old(children)@[j],
            final(self)@.start == old(self)@.start,
            final(self)@.inv(),
            blocks_ok(final(self).items@, kinds(final(children)@)),
            kinds(final(children)@) == kinds(old(children)@),
            final(work)@.wf(kinds(final(children)@)),
            r is Ok ==> final(work)@.cursor == old(work)@.cursor && final(work).spill is None
                && final(work)@.par_spill == old(work)@.par_spill,
            old(self)@.settles() ==> final(self)@.settles(),
            final(self)@.sticky is Some ==> final(self)@.sticky == old(self)@.sticky
                || final(self)@.sticky->0.work == old(work)@,
    {
        let ghost before = children@;
        let r = match &mut children[index] {
            Child::Tag(tag) => {
                let tag = *tag;
                self.tag(work, tag);
                Ok(())
            },
            Child::Rel(amount, weakness) => {
                let amount = *amount;
                let weakness = *weakness;
                self.rel(amount, weakness);
                Ok(())
            },
            Child::Fr(fr, weakness) => {
                let fr = *fr;
                let weakness = *weakness;
                self.fr(fr, weakness);
                Ok(())
            },
            Child::Line(line) => {
                let r = self.line(composer, work, line);
                proof {
                    assert(kinds(before)[index as int] == before[index as int].spec_kind());
                    assert(blocks_ok(self.items@, kinds(before)));
                }
                r
            },
            Child::Par(par) => {
                let r = self.par(composer, work, par, index);
                proof {
                    assert(kinds(before)[index as int] == before[index as int].spec_kind());
                    assert(blocks_ok(self.items@, kinds(before)));
                }
                r
            },
            Child::Single(single) => {
                let r = self.single(composer, work, single, index);
                proof {
                    assert(kinds(before)[index as int] == before[index as int].spec_kind());
                    assert(blocks_ok(self.items@, kinds(before)));
                }
                r
            },
            Child::Multi(multi) => {
                let r = self.multi(composer, work, multi, index);
                proof {
                    assert(kinds(before)[index as int] == before[index as int].spec_kind());
                    assert(blocks_ok(self.items@, kinds(before)));
                }
                r
            },
            Child::Placed(placed) => {
                let r = self.placed(composer, work, placed, index);
                proof {
                    assert(kinds(before)[index as int] == before[index as int].spec_kind());
                    assert(blocks_ok(self.items@, kinds(before)));
                }
                r
            },
            Child::Wrap(wrap) => self.wrap(composer, wrap),
            Child::Masthead(masthead) => self.masthead(composer, masthead),
            Child::Flush => self.flush(work),
            Child::Break(weak) => {
                let weak = *weak;
                self.break_(work, weak)
            },
        };
        proof {
            assert(children@.len() == before.len());
            assert(kinds(children@) =~= kinds(before));
            assert(kinds(before)[index as int] == before[index as int].spec_kind());
            assert(blocks_ok(old(self).items@, kinds(before)));
        }
        r
    }

    /// Distributes what is left of the flow into the region: first what
    /// spilled over from the region before, then child after child, until
    /// the children run out or something ends the region.
    pub fn run<C: Composer>(&mut self, composer: &mut C, work: &mut Work, children: &mut [Child]) -> (r:
        Result<(), Stop>)
        requires
            old(self)@.inv(),
            old(self)@.settles(),
            blocks_ok(old(self).items@, kinds(old(children)@)),
            old(work)@.wf(kinds(old(children)@)),
            old(self).sticky is Some ==> old(self).sticky->0.work@.wf(kinds(old(children)@)),
        ensures
            old(self)@.run_outcome(
                old(work)@,
                old(children)@,
                r,
                final(self)@,
                final(work)@,
                final(children)@,
            ),
            final(self)@.start == old(self)@.start,
            final(self)@.inv(),
            blocks_ok(final(self).items@, kinds(final(children)@)),
            kinds(final(children)@) == kinds(old(children)@),
            final(work)@.wf(kinds(final(children)@)),
            final(self).sticky is Some ==> final(self).sticky->0.work@.wf(kinds(final(children)@)),
            r is Ok ==> final(work)@.cursor == final(children)@.len() && final(work).spill is None
                && final(work).par_spill is None,
            final(self)@.settles(),
    {
        let ghost s0 = self@;
        let ghost w0 = work@;
        let ghost c0 = children@;
        let ghost mut first: Result<(), Stop> = Ok(());
        match work.spill.take() {
            Some(spill) => {
                let index = spill.multi;
                let r = match &mut children[index] {
                    Child::Multi(multi) => self.multi_spill(composer, work, multi, spill),
                    _ => {
                        assert(false);
                        Ok(())
                    },
                };
                proof {
                    assert(kinds(children@) =~= kinds(old(children)@));
                    first = r;
                    assert(s0.spill_taken(w0, c0, r, self@, work@, children@));
                }
                if r.is_err() {
                    return r;
                }
            },
            None => {
                proof {
                    assert(s0.spill_taken(w0, c0, first, self@, work@, children@));
                }
            },
        }
        let ghost s1 = self@;
        let ghost w1 = work@;
        let ghost c1 = children@;
        let ghost mut second: Result<(), Stop> = Ok(());
        match work.par_spill.take() {
            Some(spill) => {
                let r = self.par_spill(composer, work, children, spill);
                proof {
                    second = r;
                    assert(s1.par_spill_taken(w1, r, self@, work@));
                }
                if r.is_err() {
                    proof {
                        assert(s1.after_spill(w1, c1, r, self@, work@, children@));
                    }
                    return r;
                }
            },
            None => {
                proof {
                    assert(s1.par_spill_taken(w1, second, self@, work@));
                }
            },
        }
        let ghost s2 = self@;
        let ghost w2 = work@;
        let ghost mut moments: Seq<Moment<'r>> = seq![s2.at(w2, c1)];
        while work.cursor < children.len()
            invariant
                s0 == old(self)@,
                w0 == old(work)@,
                c0 == old(children)@,
                first is Ok,
                s0.spill_taken(w0, c0, first, s1, w1, c1),
                second is Ok,
                s1.par_spill_taken(w1, second, s2, w2),
                self@.start == old(self)@.start,
                chained(moments),
                moments.len() > 0,
                moments[0] == s2.at(w2, c1),
                moments.last() == self@.at(work@, children@),
                self@.inv(),
                self@.settles(),
                blocks_ok(self.items@, kinds(children@)),
                kinds(children@) == kinds(old(children)@),
                work@.wf(kinds(children@)),
                work.spill is None,
                work.par_spill is None,
                self.sticky is Some ==> self.sticky->0.work@.wf(kinds(children@)),
            decreases children@.len() - work.cursor,
        {
            let index = work.cursor;
            let ghost before = self@;
            let ghost work_before = work@;
            let ghost children_before = children@;
            let r = self.child(composer, work, children, index);
            if r.is_err() {
                proof {
                    assert(before.child_stops(
                        work_before,
                        children_before,
                        r,
                        self@,
                        work@,
                        children@,
                    ));
                    assert(s2.children_outcome(w2, c1, r, self@, work@, children@));
                    assert(s1.after_spill(w1, c1, r, self@, work@, children@));
                }
                return r;
            }
            let ghost work_mid = work@;
            work.advance();
            proof {
                assert(r->Ok_0 == ());
                assert(r == Ok::<(), Stop>(()));
                assert(work@.with_cursor(index) == work_mid);
                assert(before.child_taken(
                    work_before,
                    children_before,
                    self@,
                    work@,
                    children@,
                ));
                let longer = moments.push(self@.at(work@, children@));
                assert forall|i: int| 0 <= i < longer.len() - 1 implies (
                #[trigger] longer[i]).state.child_taken(
                    longer[i].work,
                    longer[i].children,
                    longer[i + 1].state,
                    longer[i + 1].work,
                    longer[i + 1].children,
                ) by {
                    if i < moments.len() - 1 {
                        assert(longer[i] == moments[i]);
                        assert(longer[i + 1] == moments[i + 1]);
                    }
                }
                moments = longer;
            }
        }
        proof {
            assert(s2.children_outcome(w2, c1, Ok::<(), Stop>(()), self@, work@, children@));
            assert(s1.after_spill(w1, c1, Ok::<(), Stop>(()), self@, work@, children@));
        }
        Ok(())
    }

    /// Takes a float flush: while floats wait for a later region, the
    /// region ends here.
    pub fn flush(&mut self, work: &Work) -> (r: Result<(), Stop>)
        ensures
            old(self)@.flush_outcome(work@, r, final(self)@, work@),
    {
        if work.floats.len() > 0 {
            return Err(Stop::Finish(false));
        }
        Ok(())
    }

    /// Takes a column break. A weak break does nothing in a region that
    /// holds no item, and no break does anything where no region follows.
    /// Otherwise the break is done with, and the region ends by force.
    pub fn break_(&mut self, work: &mut Work, weak: bool) -> (r: Result<(), Stop>)
        requires
            old(work).cursor < usize::MAX,
        ensures
            old(self)@.break_outcome(old(work)@, weak, r, final(self)@, final(work)@),
    {
        if (!weak || self.items.len() > 0) && self.regions.has_next() {
            work.advance();
            return Err(Stop::Finish(true));
        }
        Ok(())
    }

    /// A point to go back to: the work and the items as they are now.
    pub fn snapshot(&self, work: &Work) -> (snapshot: Snapshot)
        ensures
            snapshot@ == (Checkpoint { work: work@, items: self.items.len() }),
    {
        Snapshot { work: work.duplicate(), items: self.items.len() }
    }

    /// Goes back to a snapshot: the work is that of the snapshot, and the
    /// items that came after it are gone.
    pub fn restore(&mut self, work: &mut Work, snapshot: Snapshot)
        ensures
            final(self)@ == old(self)@.restored(snapshot@),
            final(work)@ == snapshot.work@,
    {
        *work = snapshot.work;
        if snapshot.items <= self.items.len() {
            self.items.truncate(snapshot.items);
            proof {
                self.marks@ = self.marks@.take(snapshot.items as int);
            }
        }
    }
}

} // verus!
