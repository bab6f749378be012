//! The work that is left of a flow: which child comes next, and what spilled
//! over from the region before.

use vstd::prelude::*;
use crate::abs::Abs;
use crate::abs::Rel;
use crate::child::ChildKind;
use crate::child::MultiSpill;
use crate::child::MultiSpillView;
use crate::elements::Costs;
use crate::frame::Frame;
use crate::frame::Tag;
use crate::geom::Axes;
use crate::geom::FixedAlignment;

verus! {

/// What is left of a paragraph after the regions it has been placed in.
#[derive(Debug)]
pub struct ParSpill {
    /// The lines that are still to be placed.
    pub frames: Vec<Frame>,
    pub align: Axes<FixedAlignment>,
    /// The spacing between two lines.
    pub leading: Abs,
    pub costs: Costs,
    /// The spacing below the paragraph.
    pub spacing: Rel,
    /// Which child the paragraph is, where its lines were broken beside
    /// cutouts and so may have to be broken again.
    pub par: Option<usize>,
    /// How many lines of the paragraph stand in the regions before.
    pub lines_placed: usize,
}

/// A paragraph spill as a value.
pub struct ParSpillView {
    pub frames: Seq<Frame>,
    pub align: Axes<FixedAlignment>,
    pub leading: Abs,
    pub costs: Costs,
    pub spacing: Rel,
    pub par: Option<usize>,
    pub lines_placed: usize,
}

impl View for ParSpill {
    type V = ParSpillView;

    open spec fn view(&self) -> ParSpillView {
        ParSpillView {
            frames: self.frames@,
            align: self.align,
            leading: self.leading,
            costs: self.costs,
            spacing: self.spacing,
            par: self.par,
            lines_placed: self.lines_placed,
        }
    }
}

/// Copies a list of frames.
pub fn copy_frames(frames: &Vec<Frame>) -> (copy: Vec<Frame>)
    ensures
        copy@ == frames@,
{
    let mut copy: Vec<Frame> = Vec::new();
    let mut i: usize = 0;
    while i < frames.len()
        invariant
            i <= frames.len(),
            copy@ == frames@.take(i as int),
        decreases frames.len() - i,
    {
        copy.push(frames[i]);
        assert(copy@ =~= frames@.take(i + 1));
        i += 1;
    }
    assert(frames@.take(i as int) == frames@);
    copy
}

/// The frames from the one at `from` on.
pub fn frames_from(frames: &Vec<Frame>, from: usize) -> (rest: Vec<Frame>)
    ensures
        from <= frames@.len() ==> rest@ == frames@.skip(from as int),
        from > frames@.len() ==> rest@.len() == 0,
{
    let mut rest: Vec<Frame> = Vec::new();
    if from >= frames.len() {
        assert(from == frames@.len() ==> frames@.skip(from as int) =~= rest@);
        return rest;
    }
    let mut i: usize = from;
    while i < frames.len()
        invariant
            from <= i <= frames@.len(),
            rest@ == frames@.subrange(from as int, i as int),
        decreases frames@.len() - i,
    {
        rest.push(frames[i]);
        assert(rest@ =~= frames@.subrange(from as int, i + 1));
        i += 1;
    }
    assert(frames@.subrange(from as int, i as int) =~= frames@.skip(from as int));
    rest
}

impl ParSpill {
    /// A copy of the spill.
    pub fn duplicate(&self) -> (copy: ParSpill)
        ensures
            copy@ == self@,
    {
        ParSpill {
            frames: copy_frames(&self.frames),
            align: self.align,
            leading: self.leading,
            costs: self.costs,
            spacing: self.spacing,
            par: self.par,
            lines_placed: self.lines_placed,
        }
    }
}

/// The work that is left of a flow.
#[derive(Debug)]
pub struct Work {
    /// How many of the children are done with.
    pub cursor: usize,
    /// The tags that wait for the next frame.
    pub tags: Vec<Tag>,
    /// What is left of a breakable block.
    pub spill: Option<MultiSpill>,
    /// What is left of a paragraph.
    pub par_spill: Option<ParSpill>,
    /// The floats that wait for a later region, by the child they are.
    pub floats: Vec<usize>,
}

/// The work as a value.
pub struct WorkView {
    pub cursor: usize,
    pub tags: Seq<Tag>,
    pub spill: Option<MultiSpillView>,
    pub par_spill: Option<ParSpillView>,
    pub floats: Seq<usize>,
}

impl View for Work {
    type V = WorkView;

    open spec fn view(&self) -> WorkView {
        WorkView {
            cursor: self.cursor,
            tags: self.tags@,
            spill: match self.spill {
                Some(spill) => Some(spill@),
                None => None,
            },
            par_spill: match self.par_spill {
                Some(spill) => Some(spill@),
                None => None,
            },
            floats: self.floats@,
        }
    }
}

impl WorkView {
    /// The work refers to children of the given kinds: the cursor is among
    /// them or right behind them, a spill names a child of its kind, and
    /// the lines of a spilled paragraph can still be counted.
    pub open spec fn wf(self, kinds: Seq<ChildKind>) -> bool {
        &&& self.cursor <= kinds.len()
        &&& self.spill is Some ==> self.spill->0.multi < kinds.len() && kinds[self.spill->0.multi as int]
            == ChildKind::Multi
        &&& self.par_spill is Some ==> {
            &&& self.par_spill->0.lines_placed + self.par_spill->0.frames.len() <= usize::MAX
            &&& self.par_spill->0.par is Some ==> self.par_spill->0.par->0 < kinds.len()
                && kinds[self.par_spill->0.par->0 as int] == ChildKind::Par
        }
    }

    /// Whether nothing is left to do.
    pub open spec fn done(self, len: nat) -> bool {
        &&& self.cursor >= len
        &&& self.spill is None
        &&& self.par_spill is None
        &&& self.floats.len() == 0
    }

    /// The work with the cursor one child further.
    pub open spec fn advanced(self) -> WorkView {
        WorkView {
            cursor: (self.cursor + 1) as usize,
            tags: self.tags,
            spill: self.spill,
            par_spill: self.par_spill,
            floats: self.floats,
        }
    }

    pub open spec fn with_cursor(self, cursor: usize) -> WorkView {
        WorkView {
            cursor,
            tags: self.tags,
            spill: self.spill,
            par_spill: self.par_spill,
            floats: self.floats,
        }
    }

    pub open spec fn with_tags(self, tags: Seq<Tag>) -> WorkView {
        WorkView {
            cursor: self.cursor,
            tags,
            spill: self.spill,
            par_spill: self.par_spill,
            floats: self.floats,
        }
    }

    pub open spec fn with_spill(self, spill: Option<MultiSpillView>) -> WorkView {
        WorkView {
            cursor: self.cursor,
            tags: self.tags,
            spill,
            par_spill: self.par_spill,
            floats: self.floats,
        }
    }

    pub open spec fn with_par_spill(self, par_spill: Option<ParSpillView>) -> WorkView {
        WorkView {
            cursor: self.cursor,
            tags: self.tags,
            spill: self.spill,
            par_spill,
            floats: self.floats,
        }
    }

    pub open spec fn with_floats(self, floats: Seq<usize>) -> WorkView {
        WorkView {
            cursor: self.cursor,
            tags: self.tags,
            spill: self.spill,
            par_spill: self.par_spill,
            floats,
        }
    }
}

impl Work {
    /// The work at the start of a flow.
    pub fn new() -> (work: Work)
        ensures
            work@ == (WorkView {
                cursor: 0,
                tags: Seq::empty(),
                spill: None,
                par_spill: None,
                floats: Seq::empty(),
            }),
    {
        Work { cursor: 0, tags: Vec::new(), spill: None, par_spill: None, floats: Vec::new() }
    }

    /// The child that comes next, out of `len` children.
    pub fn head(&self, len: usize) -> (index: Option<usize>)
        ensures
            index is Some <==> self.cursor < len,
            index is Some ==> index->0 == self.cursor,
    {
        if self.cursor < len {
            Some(self.cursor)
        } else {
            None
        }
    }

    /// Moves on to the next child.
    pub fn advance(&mut self)
        requires
            old(self).cursor < usize::MAX,
        ensures
            final(self)@ == old(self)@.advanced(),
    {
        self.cursor = self.cursor + 1;
    }

    /// Whether nothing is left to do, out of `len` children.
    pub fn done(&self, len: usize) -> (r: bool)
        ensures
            r == self@.done(len as nat),
    {
        self.cursor >= len && self.spill.is_none() && self.par_spill.is_none() && self.floats.len()
            == 0
    }

    /// A copy of the work.
    pub fn duplicate(&self) -> (copy: Work)
        ensures
            copy@ == self@,
    {
        let tags = self.tags.clone();
        let floats = self.floats.clone();
        assert(tags@ =~= self.tags@);
        assert(floats@ =~= self.floats@);
        Work {
            cursor: self.cursor,
            tags,
            spill: match &self.spill {
                Some(spill) => Some(spill.duplicate()),
                None => None,
            },
            par_spill: match &self.par_spill {
                Some(spill) => Some(spill.duplicate()),
                None => None,
            },
            floats,
        }
    }
}

} // verus!
