//! The end of a region: the items settle, are measured, and are arranged
//! into the frame of the region.

use vstd::prelude::*;
use crate::abs::Abs;
use crate::abs::Fr;
use crate::child::Child;
use crate::child::kinds;
use crate::diag::SourceError;
use crate::diag::Stop;
use crate::distribute::Distributor;
use crate::distribute::Snapshot;
use crate::engine::Composer;
use crate::frame::Frame;
use crate::frame::Page;
use crate::frame::Piece;
use crate::frame::Placement;
use crate::geom::Axes;
use crate::geom::FixedAlignment;
use crate::geom::Region;
use crate::geom::Smart;
use crate::geom::delta_to_point;
use crate::geom::point_add;
use crate::geom::select;
use crate::geom::size_min;
use crate::geom::size_zero;
use crate::model::Item;
use crate::model::Measure;
use crate::model::Pen;
use crate::model::Sheet;
use crate::model::arranged_with;
use crate::outcome::distributed;
use crate::outcome::spec_forced;
use crate::model::blocks_ok;
use crate::model::Share;
use crate::model::count_blocks;
use crate::model::fr_blocks;
use crate::model::last_of_child;
use crate::model::lemma_blocks_prefix;
use crate::model::lemma_fr_blocks_len;
use crate::model::lemma_take_blocks;
use crate::model::share_held;
use crate::model::spec_share_region;
use crate::model::keeps_blocks;
use crate::model::lemma_keeps_blocks;
use crate::model::lemma_keeps_blocks_trans;
use crate::model::lemma_no_blocks;
use crate::model::lemma_pen_blocks;
use crate::model::lemma_sticky_never_last;
use crate::model::lemma_trim_marked;
use crate::model::pen_at;
use crate::model::spec_fr_space;
use crate::model::spec_measure;
use crate::model::spec_page_size;
use crate::model::spec_pieces;
use crate::model::spec_widest;
use crate::work::Work;

verus! {

/// What the items add up to.
pub fn measure(items: &Vec<Item>) -> (m: Measure)
    ensures
        m == spec_measure(items@),
{
    let mut m = Measure { frs: Fr::zero(), used: size_zero(), has_fr_child: false };
    let mut i: usize = 0;
    while i < items.len()
        invariant
            i <= items@.len(),
            m == spec_measure(items@.take(i as int)),
        decreases items@.len() - i,
    {
        proof {
            assert(items@.take(i + 1).drop_last() == items@.take(i as int));
        }
        match items[i] {
            Item::Abs(v, _) => {
                m.used.y = m.used.y.plus(v);
            },
            Item::Fr(v, _, block) => {
                m.frs = m.frs.plus(v);
                m.has_fr_child = m.has_fr_child || block.is_some();
            },
            Item::Frame(frame, _) => {
                m.used.y = m.used.y.plus(frame.height());
                m.used.x.set_max(frame.width());
            },
            _ => {},
        }
        i += 1;
    }
    proof {
        assert(items@.take(i as int) == items@);
    }
    m
}

/// The height that the fractions share, and the height that the region's
/// content then takes.
pub fn fr_space(m: &Measure, region: Region) -> (shared: (Abs, Abs))
    ensures
        shared == spec_fr_space(*m, region),
{
    if m.frs.is_positive() && region.size.y.is_finite() {
        (region.size.y.minus(m.used.y), region.size.y)
    } else {
        (Abs::zero(), m.used.y)
    }
}

/// The width of the widest of the frames, or `start` if that is more.
pub fn widest(start: Abs, frames: &Vec<Frame>) -> (width: Abs)
    ensures
        width == spec_widest(start, frames@),
{
    let mut width = start;
    let mut i: usize = 0;
    while i < frames.len()
        invariant
            i <= frames@.len(),
            width == spec_widest(start, frames@.take(i as int)),
        decreases frames@.len() - i,
    {
        proof {
            assert(frames@.take(i + 1).drop_last() == frames@.take(i as int));
        }
        width.set_max(frames[i].width());
        i += 1;
    }
    proof {
        assert(frames@.take(i as int) == frames@);
    }
    width
}

/// The region into which a block of fractional height is laid out.
pub fn share_region(region: Region, fr: Fr, frs: Fr, fr_space: Abs) -> (pod: Region)
    ensures
        pod == spec_share_region(region, fr, frs, fr_space),
{
    Region::new(Axes { x: region.size.x, y: fr.share(frs, fr_space) }, region.expand)
}

/// Lays out the blocks of fractional height, each into the share of the
/// height that falls to it, and hands out their frames in the order of the
/// items. Each block is laid out through its child, so the child's cell
/// then holds the frame for that region; of the children, nothing but the
/// cells of these blocks changes. Only an error of the engine makes this
/// fail, and the cell of the block at which it failed then holds the
/// error; without such blocks nothing is laid out.
pub fn layout_fr_blocks<C: Composer>(
    items: &Vec<Item>,
    composer: &mut C,
    children: &mut [Child],
    region: Region,
    frs: Fr,
    fr_space: Abs,
) -> (r: Result<Vec<Frame>, SourceError>)
    requires
        blocks_ok(items@, kinds(old(children)@)),
    ensures
        kinds(final(children)@) == kinds(old(children)@),
        final(children)@.len() == old(children)@.len(),
        forall|j: int|
            0 <= j < old(children)@.len() ==> (#[trigger] final(children)@[j]) == old(children)@[j] || (
            old(children)@[j] is Single && final(children)@[j] is Single
                && *final(children)@[j]->Single_0 == old(children)@[j]->Single_0.with_cell(
                final(children)@[j]->Single_0.cell,
            )),
        count_blocks(items@) == 0 ==> r is Ok && final(children)@ == old(children)@,
        r matches Ok(frames) ==> {
            &&& frames@.len() == count_blocks(items@)
            &&& frames@.len() == fr_blocks(items@).len()
            &&& forall|k: int|
                0 <= k < frames@.len() && last_of_child(fr_blocks(items@), k) ==> share_held(
                    final(children)@,
                    #[trigger] fr_blocks(items@)[k],
                    region,
                    frs,
                    fr_space,
                    Ok(frames@[k]),
                )
        },
        r matches Err(error) ==> exists|k: int|
            0 <= k < fr_blocks(items@).len() && share_held(
                final(children)@,
                #[trigger] fr_blocks(items@)[k],
                region,
                frs,
                fr_space,
                Err(error),
            ),
{
    let mut frames: Vec<Frame> = Vec::new();
    let mut i: usize = 0;
    proof {
        lemma_fr_blocks_len(items@.take(0));
        assert(children@ =~= old(children)@);
    }
    while i < items.len()
        invariant
            i <= items@.len(),
            blocks_ok(items@, kinds(children@)),
            kinds(children@) == kinds(old(children)@),
            children@.len() == old(children)@.len(),
            forall|j: int|
                0 <= j < old(children)@.len() ==> (#[trigger] children@[j]) == old(children)@[j] || (
                old(children)@[j] is Single && children@[j] is Single && *children@[j]->Single_0
                    == old(children)@[j]->Single_0.with_cell(children@[j]->Single_0.cell)),
            count_blocks(items@.take(i as int)) == 0 ==> children@ == old(children)@,
            frames@.len() == count_blocks(items@.take(i as int)),
            frames@.len() == fr_blocks(items@.take(i as int)).len(),
            forall|k: int|
                0 <= k < frames@.len() && last_of_child(fr_blocks(items@.take(i as int)), k)
                    ==> share_held(
                    children@,
                    #[trigger] fr_blocks(items@.take(i as int))[k],
                    region,
                    frs,
                    fr_space,
                    Ok(frames@[k]),
                ),
        decreases items@.len() - i,
    {
        let ghost done = fr_blocks(items@.take(i as int));
        proof {
            assert(items@.take(i + 1).drop_last() == items@.take(i as int));
            lemma_take_blocks(items@, i as int);
        }
        match items[i] {
            Item::Fr(v, _, Some(block)) => {
                let pod = share_region(region, v, frs, fr_space);
                let ghost before = children@;
                let ghost share = Share { fr: v, block };
                proof {
                    assert(items@[i as int] is Fr);
                    assert(kinds(before)[block.child as int] == before[block.child as int].spec_kind());
                    assert(fr_blocks(items@.take(i + 1)) == done.push(share));
                }
                let laid_out = match &mut children[block.child] {
                    Child::Single(single) => single.layout(composer, pod),
                    _ => {
                        assert(false);
                        Err(unreached())
                    },
                };
                proof {
                    assert(kinds(children@) =~= kinds(before));
                    assert(forall|j: int|
                        0 <= j < before.len() && j != block.child ==> children@[j] == before[j]);
                    assert(share_held(children@, share, region, frs, fr_space, laid_out));
                }
                match laid_out {
                    Ok(frame) => {
                        frames.push(frame);
                        proof {
                            let now = done.push(share);
                            assert forall|k: int|
                                0 <= k < frames@.len() && last_of_child(now, k) implies share_held(
                                children@,
                                #[trigger] now[k],
                                region,
                                frs,
                                fr_space,
                                Ok(frames@[k]),
                            ) by {
                                if k < done.len() {
                                    assert(now[k] == done[k]);
                                    assert(now[done.len() as int] == share);
                                    assert(done[k].block.child != block.child);
                                    assert forall|later: int| k < later < done.len() implies (
                                    #[trigger] done[later]).block.child != done[k].block.child by {
                                        assert(now[later] == done[later]);
                                    }
                                    assert(last_of_child(done, k));
                                    assert(share_held(
                                        before,
                                        done[k],
                                        region,
                                        frs,
                                        fr_space,
                                        Ok(frames@[k]),
                                    ));
                                }
                            }
                        }
                    },
                    Err(error) => {
                        proof {
                            let all = fr_blocks(items@);
                            lemma_blocks_prefix(items@, i + 1);
                            lemma_fr_blocks_len(items@);
                            assert(all[done.len() as int] == share);
                        }
                        return Err(error);
                    },
                }
            },
            _ => {
                proof {
                    assert(fr_blocks(items@.take(i + 1)) == done);
                }
            },
        }
        i += 1;
    }
    proof {
        assert(items@.take(i as int) == items@);
    }
    Ok(frames)
}

/// Arranges the items into the frame of the region: every item that
/// leaves something there gets its position, in the order of the items.
pub fn arrange(items: &Vec<Item>, fr_frames: &Vec<Frame>, sheet: Sheet) -> (page: Page)
    requires
        fr_frames@.len() == count_blocks(items@),
    ensures
        page.size == sheet.size,
        page.pieces@ == spec_pieces(items@, sheet, fr_frames@, items@.len()),
{
    let mut pieces: Vec<Placement> = Vec::new();
    let mut ruler = FixedAlignment::Start;
    let mut offset = Abs::zero();
    let mut next: usize = 0;
    let mut i: usize = 0;
    while i < items.len()
        invariant
            i <= items@.len(),
            fr_frames@.len() == count_blocks(items@),
            pen_at(items@, sheet, i as nat) == (Pen { offset, ruler, blocks: next as nat }),
            pieces@ == spec_pieces(items@, sheet, fr_frames@, i as nat),
        decreases items@.len() - i,
    {
        proof {
            lemma_pen_blocks(items@, sheet, i as nat);
        }
        match items[i] {
            Item::Tag(tag) => {
                let y = offset.plus(ruler.position(sheet.free));
                pieces.push(Placement { pos: Axes { x: Abs::zero(), y }, piece: Piece::Tag(tag) });
            },
            Item::Abs(v, _) => {
                offset = offset.plus(v);
            },
            Item::Fr(v, _, block) => {
                let length = v.share(sheet.frs, sheet.fr_space);
                match block {
                    Some(block) => {
                        assert(fr_frames@.len() == fr_frames.len());
                        let frame = fr_frames[next];
                        let x = block.align_x.position(sheet.size.x.minus(frame.width()));
                        pieces.push(
                            Placement { pos: Axes { x, y: offset }, piece: Piece::Frame(frame) },
                        );
                        next = next + 1;
                    },
                    None => {},
                }
                offset = offset.plus(length);
            },
            Item::Frame(frame, align) => {
                ruler = ruler.max(align.y);
                let x = align.x.position(sheet.size.x.minus(frame.width()));
                let y = offset.plus(ruler.position(sheet.free));
                offset = offset.plus(frame.height());
                pieces.push(Placement { pos: Axes { x, y }, piece: Piece::Frame(frame) });
            },
            Item::Placed(frame, placing) => {
                let x = placing.align_x.position(sheet.size.x.minus(frame.width()));
                let y = match placing.align_y {
                    Smart::Custom(Some(align)) => align.position(sheet.size.y.minus(frame.height())),
                    _ => offset.plus(ruler.position(sheet.free)),
                };
                let pos = point_add(Axes { x, y }, delta_to_point(placing.delta, sheet.size));
                pieces.push(Placement { pos, piece: Piece::Frame(frame) });
            },
        }
        i += 1;
    }
    Page { size: sheet.size, pieces }
}

impl<'r> Distributor<'r> {
    /// Brings the items into the state in which the region is arranged. A
    /// region that was ended by force takes the waiting tags. Otherwise a
    /// region that holds nothing but items that move on is emptied, and the
    /// work is that of `init`, the snapshot from the region's start; and a
    /// region that ends on sticky blocks goes back to before them, work and
    /// all. Trailing weak spacing goes in any case.
    ///
    /// A region that is not ended by force thus never ends on a sticky
    /// block that could have moved on, unless the composer has stopped the
    /// region at the frame that the block was to stay with.
    pub fn settle(&mut self, work: &mut Work, init: Snapshot, forced: bool)
        requires
            old(self)@.inv(),
        ensures
            final(self)@ == old(self)@.settled(init@, forced, old(work)@.tags),
            final(work)@ == old(self)@.settled_work(old(work)@, init@, forced),
            final(self)@.marked(),
            keeps_blocks(old(self).items@, final(self).items@, None),
            !forced && old(self)@.tied() && init.items == 0 ==> final(self)@.no_bound_frame_last(),
    {
        proof {
            if !forced && self@.tied() && init.items == 0 {
                lemma_sticky_never_last(self@, init@, work@.tags);
            }
        }
        if forced {
            self.flush_tags(work);
        } else if self.items.len() > 0 && self.all_migratable() {
            self.restore(work, init);
        } else {
            match self.sticky.take() {
                Some(snapshot) => {
                    self.restore(work, snapshot);
                },
                None => {},
            }
        }
        let ghost mid = self@;
        proof {
            if !forced {
                lemma_keeps_blocks(old(self).items@, mid.items, None, |i: int| i);
            }
            lemma_trim_marked(mid);
            lemma_keeps_blocks_trans(old(self).items@, mid.items, mid.trim().items, None);
        }
        self.trim_spacing();
    }

    /// Arranges what the region holds into its frame. The items settle;
    /// fractions share the height that is left; blocks of fractional height
    /// are laid out into their shares; and every item gets its position.
    /// `region` is the region as it was when the distribution began, and
    /// `init` the snapshot from then. Only an error of the engine makes
    /// this fail.
    pub fn finalize<C: Composer>(
        self,
        composer: &mut C,
        work: &mut Work,
        children: &mut [Child],
        region: Region,
        init: Snapshot,
        forced: bool,
    ) -> (r: Result<Page, Stop>)
        requires
            self@.inv(),
            blocks_ok(self.items@, kinds(old(children)@)),
        ensures
            self@.finalize_outcome(
                old(work)@,
                old(children)@,
                region,
                init@,
                forced,
                r,
                final(work)@,
                final(children)@,
            ),
            kinds(final(children)@) == kinds(old(children)@),
            r matches Err(stop) ==> stop is Error,
    {
        let mut distributor = self;
        distributor.settle(work, init, forced);
        let m = measure(&distributor.items);
        let (fr_space, _used_y) = fr_space(&m, region);
        proof {
            lemma_no_blocks(distributor.items@);
            lemma_fr_blocks_len(distributor.items@);
        }
        let fr_frames = if m.has_fr_child {
            match layout_fr_blocks(&distributor.items, composer, children, region, m.frs, fr_space) {
                Ok(frames) => frames,
                Err(error) => {
                    return Err(Stop::Error(error));
                },
            }
        } else {
            proof {
                assert(children@ =~= old(children)@);
            }
            Vec::new()
        };
        let insertion = if !region.expand.x {
            composer.insertion_width()
        } else {
            Abs::zero()
        };
        let page = page_of(&distributor.items, &fr_frames, region, insertion);
        proof {
            assert(arranged_with(
                distributor.items@,
                fr_frames@,
                region,
                insertion,
                page.size,
                page.pieces@,
            ));
        }
        Ok(page)
    }
}

/// The frame of a region that holds the items, with the given frames of
/// its blocks of fractional height and insertions of the given width.
pub fn page_of(items: &Vec<Item>, fr_frames: &Vec<Frame>, region: Region, insertion: Abs) -> (page:
    Page)
    requires
        fr_frames@.len() == count_blocks(items@),
    ensures
        arranged_with(items@, fr_frames@, region, insertion, page.size, page.pieces@),
{
    let m = measure(items);
    let (fr_space, used_y) = fr_space(&m, region);
    let mut used_x = widest(m.used.x, fr_frames);
    if !region.expand.x {
        used_x.set_max(insertion);
    }
    let used = Axes { x: used_x, y: used_y };
    let size = select(region.expand, region.size, size_min(used, region.size));
    let free = size.y.minus(used_y);
    let sheet = Sheet { size, free, frs: m.frs, fr_space };
    arrange(items, fr_frames, sheet)
}

/// Distributes as many of the children as fit into the first of the
/// regions, from where the work stands, and hands out the frame of that
/// region. The work then stands where the next region begins. That the
/// region is done is no failure: it fails only on an error, or where
/// something was inserted and the region has to be laid out again.
pub fn distribute<C: Composer>(
    composer: &mut C,
    work: &mut Work,
    children: &mut [Child],
    regions: crate::geom::Regions<'_>,
) -> (r: Result<Page, Stop>)
    requires
        old(work)@.wf(kinds(old(children)@)),
    ensures
        distributed(regions, old(work)@, old(children)@, r, final(work)@, final(children)@),
        kinds(final(children)@) == kinds(old(children)@),
        r is Ok ==> final(work)@.wf(kinds(final(children)@)),
        r matches Err(stop) ==> !(stop is Finish),
        r matches Ok(page) ==> {
            &&& regions.expand.x ==> page.size.x == regions.size.x
            &&& regions.expand.y ==> page.size.y == regions.size.y
            &&& !regions.expand.x ==> page.size.x.raw <= regions.size.x.raw
            &&& !regions.expand.y ==> page.size.y.raw <= regions.size.y.raw
        },
{
    let mut distributor = Distributor::new(regions);
    let init = distributor.snapshot(work);
    let ghost start = distributor@;
    let ran = distributor.run(composer, work, children);
    let ghost reached = distributor@;
    let ghost work_ran = work@;
    let ghost children_ran = children@;
    let forced = match ran {
        Ok(()) => work.done(children.len()),
        Err(Stop::Finish(forced)) => forced,
        Err(stop) => {
            proof {
                assert(start.run_outcome(
                    old(work)@,
                    old(children)@,
                    ran,
                    reached,
                    work_ran,
                    children_ran,
                ));
            }
            return Err(stop);
        },
    };
    let region = Region::new(regions.size, regions.expand);
    let r = distributor.finalize(composer, work, children, region, init, forced);
    proof {
        assert(start.run_outcome(old(work)@, old(children)@, ran, reached, work_ran, children_ran));
        assert(forced == spec_forced(ran, work_ran, children_ran.len()));
    }
    r
}

} // verus!
