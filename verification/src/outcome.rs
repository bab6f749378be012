//! What each step of a distribution leaves behind, for every answer that
//! the engine and the composer can give.

use vstd::prelude::*;
use crate::cell::hash128;
use crate::cell::Fingerprint;
use crate::cell::Slot;
use crate::child::Child;
use crate::child::LineChild;
use crate::child::MultiChild;
use crate::child::MultiSpill;
use crate::child::MultiSpillView;
use crate::child::ParChild;
use crate::child::PlacedChild;
use crate::child::SingleChild;
use crate::diag::ErrorKind;
use crate::diag::SourceError;
use crate::diag::Stop;
use crate::engine::Fragment;
use crate::frame::Frame;
use crate::frame::Page;
use crate::geom::Region;
use crate::geom::Regions;
use crate::model::Checkpoint;
use crate::model::arranged;
use crate::model::count_blocks;
use crate::model::fr_blocks;
use crate::model::share_held;
use crate::model::spec_fr_space;
use crate::model::spec_measure;
use crate::model::used;
use crate::model::FrBlock;
use crate::model::Item;
use crate::model::Mark;
use crate::model::Placing;
use crate::model::State;
use crate::work::ParSpillView;
use crate::work::WorkView;

verus! {

/// The lines of a paragraph without the first `placed` of them, and none
/// if there are no more than that.
pub open spec fn rest_of(all: Seq<Frame>, placed: usize) -> Seq<Frame> {
    if placed <= all.len() {
        all.skip(placed as int)
    } else {
        Seq::empty()
    }
}

/// A moment of a run: the state, the work and the children as they are
/// then.
pub struct Moment<'r> {
    pub state: State<'r>,
    pub work: WorkView,
    pub children: Seq<Child>,
}

/// Whether each moment but the last leads to the next by taking one child
/// with success.
pub open spec fn chained(moments: Seq<Moment>) -> bool {
    forall|i: int|
        0 <= i < moments.len() - 1 ==> (#[trigger] moments[i]).state.child_taken(
            moments[i].work,
            moments[i].children,
            moments[i + 1].state,
            moments[i + 1].work,
            moments[i + 1].children,
        )
}

/// After the composer has answered for the float at `index`: a float that
/// has to wait is queued behind those that wait already, a float that is
/// placed leaves the work as it is, and a stop of the composer is handed
/// on.
pub open spec fn float_outcome(
    work: WorkView,
    index: usize,
    answer: Result<bool, Stop>,
    r: Result<(), Stop>,
    work_after: WorkView,
) -> bool {
    match answer {
        Ok(waits) => r is Ok && work_after == if waits {
            work.with_floats(work.floats.push(index))
        } else {
            work
        },
        Err(stop) => r == Err::<(), Stop>(stop) && work_after == work,
    }
}

impl<'r> State<'r> {
    /// Nothing has changed.
    pub open spec fn stays(self, work: WorkView, after: State<'r>, work_after: WorkView) -> bool {
        after == self && work_after == work
    }

    /// After a line of a paragraph. The region ends before the line if the
    /// line has no room and the next region may differ, or if what the line
    /// needs has no room here but has room in the next region. Else the
    /// line enters as a frame, unless the composer stops the region.
    pub open spec fn line_outcome(
        self,
        work: WorkView,
        line: LineChild,
        r: Result<(), Stop>,
        after: State<'r>,
        work_after: WorkView,
    ) -> bool {
        if self.breaks_before(line.frame.size.y, line.need) {
            r == Err::<(), Stop>(Stop::Finish(false)) && self.stays(work, after, work_after)
        } else {
            self.frame_outcome(work, line.frame, line.align, false, r is Err, after, work_after)
        }
    }

    /// After a block that does not break, which the engine has laid out as
    /// `laid`. An error of the engine is fatal. A block of fractional
    /// height enters as such, after the waiting tags, unless the composer
    /// stops the region. Any other block ends the region if it has no room
    /// and the next region may differ, and else enters as a frame, unless
    /// the composer stops the region.
    pub open spec fn single_outcome(
        self,
        work: WorkView,
        single: SingleChild,
        index: usize,
        laid: Result<Frame, SourceError>,
        r: Result<(), Stop>,
        after: State<'r>,
        work_after: WorkView,
    ) -> bool {
        match laid {
            Err(error) => r == Err::<(), Stop>(Stop::Error(error)) && self.stays(
                work,
                after,
                work_after,
            ),
            Ok(frame) => match single.fr {
                Some(fr) => if r is Err {
                    self.stays(work, after, work_after)
                } else {
                    after == self.flushed(work.tags).pushed(
                        Item::Fr(fr, 0, Some(FrBlock { child: index, align_x: single.align.x })),
                        Mark::Plain,
                    ) && work_after == work.with_tags(Seq::empty())
                },
                None => if self.lacks_room(frame.size.y) {
                    r == Err::<(), Stop>(Stop::Finish(false)) && self.stays(work, after, work_after)
                } else {
                    self.frame_outcome(
                        work,
                        frame,
                        single.align,
                        single.sticky,
                        r is Err,
                        after,
                        work_after,
                    )
                },
            },
        }
    }

    /// After a block that can break, whose cell then holds `slot`. A
    /// region that is full ends before the block. An error of the engine is
    /// fatal. If the first frame is empty while a later one is not, and the
    /// next region may differ, the region ends before the block. Else the
    /// first frame enters, unless the composer stops the region; and where
    /// more frames follow, the rest is kept as a spill, the block is done
    /// with, and the region ends.
    pub open spec fn multi_outcome(
        self,
        work: WorkView,
        multi: MultiChild,
        index: usize,
        slot: Option<Slot<Result<Fragment, SourceError>>>,
        r: Result<(), Stop>,
        after: State<'r>,
        work_after: WorkView,
    ) -> bool {
        if self.regions.spec_is_full() {
            r == Err::<(), Stop>(Stop::Finish(false)) && self.stays(work, after, work_after)
        } else {
            slot is Some && match slot->0.value {
                Err(error) => r == Err::<(), Stop>(Stop::Error(error)) && self.stays(
                    work,
                    after,
                    work_after,
                ),
                Ok(fragment) => {
                    let split = MultiChild::spec_split(fragment@, self.regions, index);
                    if split.0.spec_is_empty() && split.1 is Some && split.1->0.exist_non_empty_frame
                        && self.regions.spec_may_progress() {
                        r == Err::<(), Stop>(Stop::Finish(false)) && self.stays(
                            work,
                            after,
                            work_after,
                        )
                    } else if split.1 is None {
                        self.frame_outcome(
                            work,
                            split.0,
                            multi.align,
                            multi.sticky,
                            r is Err,
                            after,
                            work_after,
                        )
                    } else {
                        ||| r is Err && self.frame_outcome(
                            work,
                            split.0,
                            multi.align,
                            multi.sticky,
                            true,
                            after,
                            work_after,
                        )
                        ||| r == Err::<(), Stop>(Stop::Finish(false)) && after == self.noted(
                            multi.sticky,
                            split.0.spec_is_empty(),
                            crate::model::Checkpoint { work, items: self.items.len() as usize },
                        ).framed(work.tags, split.0, multi.align, multi.sticky) && work_after
                            == work.with_tags(Seq::empty()).with_spill(split.1).advanced()
                    }
                },
            }
        }
    }

    /// After what was left of a block that broke, whose cell then holds
    /// `slot`. In a region that is full the spill waits on. An error of the
    /// engine is fatal, and so is a block that has no frame for this region.
    /// Else the frame for this region enters, unless the composer stops the
    /// region; and where more frames follow, the rest is kept as a spill
    /// again and the region ends.
    pub open spec fn multi_spill_outcome(
        self,
        work: WorkView,
        spill: MultiSpillView,
        multi: MultiChild,
        slot: Option<Slot<Result<Fragment, SourceError>>>,
        r: Result<(), Stop>,
        after: State<'r>,
        work_after: WorkView,
    ) -> bool {
        if self.regions.spec_is_full() {
            r == Err::<(), Stop>(Stop::Finish(false)) && after == self && work_after
                == work.with_spill(Some(spill))
        } else {
            slot is Some && match slot->0.value {
                Err(error) => r == Err::<(), Stop>(Stop::Error(error)) && self.stays(
                    work,
                    after,
                    work_after,
                ),
                Ok(fragment) => {
                    let skip = spill.backlog.len() + 1;
                    let committed = MultiSpill::committed(spill, self.regions);
                    let next = MultiSpill::raised(
                        committed,
                        MultiSpill::merged(committed, self.regions).len() as usize,
                    );
                    if fragment@.len() <= skip {
                        r == Err::<(), Stop>(
                            Stop::Error(
                                SourceError { span: multi.elem.span, kind: ErrorKind::MissingFrame },
                            ),
                        ) && self.stays(work, after, work_after)
                    } else if fragment@.len() == skip + 1 {
                        self.frame_outcome(
                            work,
                            fragment@[skip as int],
                            multi.align,
                            false,
                            r is Err,
                            after,
                            work_after,
                        )
                    } else {
                        ||| r is Err && self.frame_outcome(
                            work,
                            fragment@[skip as int],
                            multi.align,
                            false,
                            true,
                            after,
                            work_after,
                        )
                        ||| r == Err::<(), Stop>(Stop::Finish(false)) && after == self.unstuck(
                            fragment@[skip as int].spec_is_empty(),
                        ).framed(work.tags, fragment@[skip as int], multi.align, false) && work_after
                            == work.with_tags(Seq::empty()).with_spill(Some(next))
                    }
                },
            }
        }
    }

    /// After a placed child, whose cell then holds `slot`. A float is left
    /// to the composer, and what follows is that of its answer. Any other placed
    /// child is laid out; an error of the engine is fatal; and its frame
    /// enters as a placed frame, after the waiting tags, unless the
    /// composer stops the region.
    pub open spec fn placed_outcome(
        self,
        work: WorkView,
        placed: PlacedChild,
        index: usize,
        slot: Option<Slot<Result<Frame, SourceError>>>,
        r: Result<(), Stop>,
        after: State<'r>,
        work_after: WorkView,
    ) -> bool {
        if placed.float {
            after == self && exists|answer: Result<bool, Stop>| #[trigger]
                float_outcome(work, index, answer, r, work_after)
        } else {
            slot is Some && match slot->0.value {
                Err(error) => r == Err::<(), Stop>(Stop::Error(error)) && self.stays(
                    work,
                    after,
                    work_after,
                ),
                Ok(frame) => if r is Err {
                    self.stays(work, after, work_after)
                } else {
                    after == self.flushed(work.tags).pushed(
                        Item::Placed(
                            frame,
                            Placing {
                                align_x: placed.align_x,
                                align_y: placed.align_y,
                                delta: placed.delta,
                                float: false,
                            },
                        ),
                        Mark::Plain,
                    ) && work_after == work.with_tags(Seq::empty())
                },
            }
        }
    }

    /// After a paragraph whose layout was put off. An error of the engine
    /// is fatal. Else the spacing above the paragraph enters as weak
    /// spacing, and the lines that the engine made of the paragraph are
    /// placed; a spill remembers the paragraph if the lines were broken
    /// beside cutouts.
    pub open spec fn par_outcome(
        self,
        work: WorkView,
        par: ParChild,
        index: usize,
        r: Result<(), Stop>,
        after: State<'r>,
        work_after: WorkView,
    ) -> bool {
        ||| (r matches Err(Stop::Error(_))) && self.stays(work, after, work_after)
        ||| exists|lines: Seq<Frame>, par_ref: Option<usize>|
            (par_ref is None || par_ref == Some(index)) && #[trigger] self.rel(
                par.spacing.relative_to_spec(self.regions.spec_base().y),
                4,
            ).lines_outcome(
                work,
                lines,
                par.align,
                par.leading,
                par.costs,
                par.spacing,
                true,
                par_ref,
                0,
                r,
                after,
                work_after,
            )
    }

    /// After the lines that the engine has made anew of a spilled
    /// paragraph: the lines that stand in regions already are passed over,
    /// and the rest is placed; a spill of these lines no longer remembers
    /// the paragraph.
    pub open spec fn relaid_outcome(
        self,
        work: WorkView,
        spill: ParSpillView,
        all: Seq<Frame>,
        r: Result<(), Stop>,
        after: State<'r>,
        work_after: WorkView,
    ) -> bool {
        self.lines_outcome(
            work,
            rest_of(all, spill.lines_placed),
            spill.align,
            spill.leading,
            spill.costs,
            spill.spacing,
            false,
            None,
            spill.lines_placed,
            r,
            after,
            work_after,
        )
    }

    /// After what was left of a paragraph, beside the cutouts of the
    /// column. If the paragraph's lines were broken beside cutouts and the
    /// column has none now, the engine breaks the paragraph into lines
    /// again: its error is fatal, and else its lines are placed without
    /// those that stand in regions already. In every other case the lines
    /// of the spill are placed as they are.
    pub open spec fn spill_lines_outcome(
        self,
        work: WorkView,
        spill: ParSpillView,
        no_cutouts: bool,
        r: Result<(), Stop>,
        after: State<'r>,
        work_after: WorkView,
    ) -> bool {
        if spill.par is Some && no_cutouts {
            ||| (r matches Err(Stop::Error(_))) && self.stays(work, after, work_after)
            ||| exists|all: Seq<Frame>|
                all.len() <= usize::MAX && #[trigger] self.relaid_outcome(
                    work,
                    spill,
                    all,
                    r,
                    after,
                    work_after,
                )
        } else {
            self.lines_outcome(
                work,
                spill.frames,
                spill.align,
                spill.leading,
                spill.costs,
                spill.spacing,
                false,
                spill.par,
                spill.lines_placed,
                r,
                after,
                work_after,
            )
        }
    }

    /// After what was left of a paragraph. In a region that is full the
    /// spill waits on. Else the composer says whether the column has
    /// cutouts, and the lines are placed beside them.
    pub open spec fn par_spill_outcome(
        self,
        work: WorkView,
        spill: ParSpillView,
        r: Result<(), Stop>,
        after: State<'r>,
        work_after: WorkView,
    ) -> bool {
        if self.regions.spec_is_full() {
            r == Err::<(), Stop>(Stop::Finish(false)) && after == self && work_after
                == work.with_par_spill(Some(spill))
        } else {
            exists|no_cutouts: bool| #[trigger]
                self.spill_lines_outcome(work, spill, no_cutouts, r, after, work_after)
        }
    }

    /// After a float flush: while floats wait for a later region, the
    /// region ends.
    pub open spec fn flush_outcome(
        self,
        work: WorkView,
        r: Result<(), Stop>,
        after: State<'r>,
        work_after: WorkView,
    ) -> bool {
        &&& self.stays(work, after, work_after)
        &&& if work.floats.len() > 0 {
            r == Err::<(), Stop>(Stop::Finish(false))
        } else {
            r is Ok
        }
    }

    /// After a column break. A weak break does nothing in a region that
    /// holds no item, and no break does anything where no region follows.
    /// Else the break is done with, and the region ends by force.
    pub open spec fn break_outcome(
        self,
        work: WorkView,
        weak: bool,
        r: Result<(), Stop>,
        after: State<'r>,
        work_after: WorkView,
    ) -> bool {
        &&& after == self
        &&& if (!weak || self.items.len() > 0) && self.regions.spec_has_next() {
            r == Err::<(), Stop>(Stop::Finish(true)) && work_after == work.advanced()
        } else {
            r is Ok && work_after == work
        }
    }

    /// After the child at `index`, which was `child` and is `child_after`.
    /// Only the cell of the child can have changed, unless the composer had
    /// its hands on the child. The cell of a block or of a placed element
    /// that is laid out here then holds an answer for what it was laid out
    /// against, and it is the cell as it was where it held one already.
    pub open spec fn child_outcome(
        self,
        work: WorkView,
        child: Child,
        index: usize,
        child_after: Child,
        r: Result<(), Stop>,
        after: State<'r>,
        work_after: WorkView,
    ) -> bool {
        match child {
            Child::Tag(tag) => r is Ok && after == self && work_after == work.with_tags(
                work.tags.push(tag),
            ) && child_after == child,
            Child::Rel(amount, weakness) => r is Ok && after == self.rel(
                amount.relative_to_spec(self.regions.spec_base().y),
                weakness,
            ) && work_after == work && child_after == child,
            Child::Fr(fr, weakness) => r is Ok && after == self.fr(fr, weakness) && work_after == work
                && child_after == child,
            Child::Line(line) => self.line_outcome(work, *line, r, after, work_after) && child_after
                == child,
            Child::Par(par) => self.par_outcome(work, *par, index, r, after, work_after) && child_after
                == child,
            Child::Single(single) => child_after is Single && *child_after->Single_0 == single.with_cell(
                child_after->Single_0.cell,
            ) && child_after->Single_0.cell.filled_from(
                single.cell,
                hash128(
                    (Region { size: self.regions.spec_base(), expand: self.regions.expand }).key_bytes(),
                ),
            ) && self.single_outcome(
                work,
                *single,
                index,
                child_after->Single_0.cell.slot->0.value,
                r,
                after,
                work_after,
            ),
            Child::Multi(multi) => child_after is Multi && child_after->Multi_0.same_block(&*multi)
                && (if self.regions.spec_is_full() {
                child_after == child
            } else {
                child_after->Multi_0.cell.filled_from(multi.cell, hash128(self.regions.key_bytes()))
            }) && self.multi_outcome(
                work,
                *multi,
                index,
                child_after->Multi_0.cell.slot,
                r,
                after,
                work_after,
            ),
            Child::Placed(placed) => child_after is Placed && (!placed.float
                ==> *child_after->Placed_0 == placed.with_cell(child_after->Placed_0.cell)
                && child_after->Placed_0.cell.filled_from(
                placed.cell,
                hash128(self.regions.spec_base().key_bytes()),
            )) && self.placed_outcome(
                work,
                *placed,
                index,
                child_after->Placed_0.cell.slot,
                r,
                after,
                work_after,
            ),
            Child::Wrap(_) => child_after is Wrap && self.stays(work, after, work_after),
            Child::Masthead(_) => child_after is Masthead && self.stays(work, after, work_after),
            Child::Flush => self.flush_outcome(work, r, after, work_after) && child_after == child,
            Child::Break(weak) => self.break_outcome(work, weak, r, after, work_after) && child_after
                == child,
        }
    }

    /// After the child that the work is at, where taking it has failed
    /// with `r` or has ended the region: the other children are as they
    /// were.
    pub open spec fn child_stops(
        self,
        work: WorkView,
        children: Seq<Child>,
        r: Result<(), Stop>,
        after: State<'r>,
        work_after: WorkView,
        children_after: Seq<Child>,
    ) -> bool {
        &&& r is Err
        &&& work.cursor < children.len()
        &&& children_after.len() == children.len()
        &&& forall|j: int|
            0 <= j < children.len() && j != work.cursor ==> (#[trigger] children_after[j]) == children[j]
        &&& self.child_outcome(
            work,
            children[work.cursor as int],
            work.cursor,
            children_after[work.cursor as int],
            r,
            after,
            work_after,
        )
    }

    /// After the child that the work is at has been taken with success:
    /// the work has moved on by one child, and the other children are as
    /// they were.
    pub open spec fn child_taken(
        self,
        work: WorkView,
        children: Seq<Child>,
        after: State<'r>,
        work_after: WorkView,
        children_after: Seq<Child>,
    ) -> bool {
        &&& work.cursor < children.len()
        &&& children_after.len() == children.len()
        &&& forall|j: int|
            0 <= j < children.len() && j != work.cursor ==> (#[trigger] children_after[j]) == children[j]
        &&& work_after.cursor == work.cursor + 1
        &&& self.child_outcome(
            work,
            children[work.cursor as int],
            work.cursor,
            children_after[work.cursor as int],
            Ok::<(), Stop>(()),
            after,
            work_after.with_cursor(work.cursor),
        )
    }

    /// The state, the work and the children at this moment.
    pub open spec fn at(self, work: WorkView, children: Seq<Child>) -> Moment<'r> {
        Moment { state: self, work, children }
    }

    /// After child is taken after child, from where the work stands. The
    /// children that are taken with success lead from moment to moment.
    /// After the last of these moments either no child is left, and all is
    /// well; or taking the next child fails or ends the region.
    pub open spec fn children_outcome(
        self,
        work: WorkView,
        children: Seq<Child>,
        r: Result<(), Stop>,
        after: State<'r>,
        work_after: WorkView,
        children_after: Seq<Child>,
    ) -> bool {
        exists|moments: Seq<Moment<'r>>|
            {
                &&& #[trigger] chained(moments)
                &&& moments.len() > 0
                &&& moments[0] == self.at(work, children)
                &&& if r is Ok {
                    moments.last().work.cursor >= moments.last().children.len() && moments.last()
                        == after.at(work_after, children_after)
                } else {
                    moments.last().state.child_stops(
                        moments.last().work,
                        moments.last().children,
                        r,
                        after,
                        work_after,
                        children_after,
                    )
                }
            }
    }

    /// After what was left of a breakable block, if anything was, has been
    /// taken, with `r` as the outcome: the spill is taken from the work, and
    /// of the children only the block can have changed, and only in its
    /// cell, which then holds an answer for the regions from the one in
    /// which the block began.
    pub open spec fn spill_taken(
        self,
        work: WorkView,
        children: Seq<Child>,
        r: Result<(), Stop>,
        after: State<'r>,
        work_after: WorkView,
        children_after: Seq<Child>,
    ) -> bool {
        match work.spill {
            None => r is Ok && after == self && work_after == work && children_after == children,
            Some(spill) => {
                &&& spill.multi < children.len()
                &&& children[spill.multi as int] is Multi
                &&& children_after.len() == children.len()
                &&& forall|j: int|
                    0 <= j < children.len() && j != spill.multi ==> (#[trigger] children_after[j])
                        == children[j]
                &&& children_after[spill.multi as int] is Multi
                &&& children_after[spill.multi as int]->Multi_0.same_block(
                    &*children[spill.multi as int]->Multi_0,
                )
                &&& if self.regions.spec_is_full() {
                    children_after[spill.multi as int] == children[spill.multi as int]
                } else {
                    children_after[spill.multi as int]->Multi_0.cell.filled_from(
                        children[spill.multi as int]->Multi_0.cell,
                        hash128(MultiSpill::spec_pod_key(spill, self.regions)),
                    )
                }
                &&& self.multi_spill_outcome(
                    work.with_spill(None),
                    spill,
                    *children[spill.multi as int]->Multi_0,
                    children_after[spill.multi as int]->Multi_0.cell.slot,
                    r,
                    after,
                    work_after,
                )
            },
        }
    }

    /// After what was left of a paragraph, if anything was, has been
    /// taken, with `r` as the outcome: the spill is taken from the work.
    pub open spec fn par_spill_taken(
        self,
        work: WorkView,
        r: Result<(), Stop>,
        after: State<'r>,
        work_after: WorkView,
    ) -> bool {
        match work.par_spill {
            None => r is Ok && after == self && work_after == work,
            Some(spill) => self.par_spill_outcome(
                work.with_par_spill(None),
                spill,
                r,
                after,
                work_after,
            ),
        }
    }

    /// After the spill of a breakable block is dealt with: what was left
    /// of a paragraph is taken, and if that goes well, child after child.
    pub open spec fn after_spill(
        self,
        work: WorkView,
        children: Seq<Child>,
        r: Result<(), Stop>,
        after: State<'r>,
        work_after: WorkView,
        children_after: Seq<Child>,
    ) -> bool {
        exists|first: Result<(), Stop>, mid: State<'r>, work_mid: WorkView|
            #[trigger] self.par_spill_taken(work, first, mid, work_mid) && if first is Err {
                r == first && after == mid && work_after == work_mid && children_after == children
            } else {
                mid.children_outcome(work_mid, children, r, after, work_after, children_after)
            }
    }

    /// After the end of a region. The items settle, and the work is that
    /// with which the next region begins. A region that does not end by
    /// force, and at which the composer has not stopped a frame, does not
    /// end on a sticky block that could have moved on. Then the blocks of
    /// fractional height are laid out through their children, of which
    /// only their cells can change: an error of the engine is fatal, and
    /// the cell of the block then holds it; without such blocks nothing
    /// can fail. Else the frame of the region is the arrangement of the
    /// settled items.
    pub open spec fn finalize_outcome(
        self,
        work: WorkView,
        children: Seq<Child>,
        region: Region,
        init: Checkpoint,
        forced: bool,
        r: Result<Page, Stop>,
        work_after: WorkView,
        children_after: Seq<Child>,
    ) -> bool {
        let settled = self.settled(init, forced, work.tags);
        let measure = spec_measure(settled.items);
        let shared = spec_fr_space(measure, region);
        &&& work_after == self.settled_work(work, init, forced)
        &&& !forced && self.tied() && init.items == 0 ==> settled.no_bound_frame_last()
        &&& children_after.len() == children.len()
        &&& forall|j: int|
            0 <= j < children.len() ==> (#[trigger] children_after[j]) == children[j] || (
            children[j] is Single && children_after[j] is Single && *children_after[j]->Single_0
                == children[j]->Single_0.with_cell(children_after[j]->Single_0.cell))
        &&& count_blocks(settled.items) == 0 ==> r is Ok && children_after == children
        &&& match r {
            Ok(page) => arranged(settled.items, region, children_after, page.size, page.pieces@),
            Err(stop) => stop is Error && exists|k: int|
                0 <= k < fr_blocks(settled.items).len() && share_held(
                    children_after,
                    #[trigger] fr_blocks(settled.items)[k],
                    region,
                    measure.frs,
                    shared.0,
                    Err(stop->Error_0),
                ),
        }
    }

    /// After a run: what spilled over from the region before is taken
    /// first, the rest of a breakable block and then the rest of a
    /// paragraph; then child after child is taken, until no child is left
    /// or something fails or ends the region. The first failure or end is
    /// the outcome.
    pub open spec fn run_outcome(
        self,
        work: WorkView,
        children: Seq<Child>,
        r: Result<(), Stop>,
        after: State<'r>,
        work_after: WorkView,
        children_after: Seq<Child>,
    ) -> bool {
        exists|
            first: Result<(), Stop>,
            mid: State<'r>,
            work_mid: WorkView,
            children_mid: Seq<Child>,
        |
            #[trigger] self.spill_taken(work, children, first, mid, work_mid, children_mid)
                && if first is Err {
                r == first && after == mid && work_after == work_mid && children_after
                    == children_mid
            } else {
                mid.after_spill(work_mid, children_mid, r, after, work_after, children_after)
            }
    }
}

/// Whether the region ends by force after a run with the given outcome:
/// after a run that went through, if nothing is left to do; and where a
/// column break has ended the region.
pub open spec fn spec_forced(first: Result<(), Stop>, work: WorkView, len: nat) -> bool {
    match first {
        Ok(_) => work.done(len),
        Err(Stop::Finish(forced)) => forced,
        Err(_) => false,
    }
}

/// After the distribution into the first of the regions. The run starts
/// from an empty region and keeps the height account: while the height that
/// is left is finite, the items take what is missing of the height at the
/// start, and so, while it is not negative, no more than the height at the
/// start. Where it fails on an
/// error, or where the region has to be laid out again, that is the
/// outcome. In every other case the region ends, by force or not, and the
/// outcome is that of its end: the frame of the region arranges the items
/// that the run has left, once they have settled, and the work stands
/// where the next region begins.
pub open spec fn distributed(
    regions: Regions<'_>,
    work: WorkView,
    children: Seq<Child>,
    r: Result<Page, Stop>,
    work_after: WorkView,
    children_after: Seq<Child>,
) -> bool {
    exists|first: Result<(), Stop>, ran: State<'_>, work_ran: WorkView, children_ran: Seq<Child>|
        {
            &&& #[trigger] State::initial(regions).run_outcome(
                work,
                children,
                first,
                ran,
                work_ran,
                children_ran,
            )
            &&& ran.inv()
            &&& ran.settles()
            &&& ran.start == regions.size.y
            &&& ran.height().finite() && ran.height().raw >= 0 ==> used(ran.items)
                <= regions.size.y.raw
            &&& if first is Err && !(first->Err_0 is Finish) {
                r == Err::<Page, Stop>(first->Err_0) && work_after == work_ran && children_after
                    == children_ran
            } else {
                ran.finalize_outcome(
                    work_ran,
                    children_ran,
                    Region { size: regions.size, expand: regions.expand },
                    Checkpoint { work, items: 0 },
                    spec_forced(first, work_ran, children_ran.len()),
                    r,
                    work_after,
                    children_after,
                )
            }
        }
}

} // verus!
