//! Laws of the distribution as a whole. A paragraph that is laid out when
//! it is collected and one that is laid out when it is distributed come to
//! the same, in an only region without end; so do whole flows, from the
//! collection to the frame of the region. A flow without children is
//! distributed with success. And the spill of a paragraph counts its
//! lines, also where the paragraph is broken into lines again.

use vstd::prelude::*;
use crate::abs::Abs;
use crate::abs::Rel;
use crate::abs::lemma_from_abs;
use crate::child::Child;
use crate::child::LineChild;
use crate::child::ParChild;
use crate::collect::Collected;
use crate::collect::Reply;
use crate::collect::Setup;
use crate::collect::answered;
use crate::collect::line_children;
use crate::collect::spec_block_child;
use crate::collect::spec_block_spacing;
use crate::collect::spec_par_child;
use crate::collect::spec_par_lines;
use crate::diag::Stop;
use crate::elements::Costs;
use crate::elements::Element;
use crate::elements::ParElem;
use crate::frame::Frame;
use crate::frame::Page;
use crate::frame::Tag;
use crate::geom::Axes;
use crate::geom::FixedAlignment;
use crate::geom::Region;
use crate::geom::Regions;
use crate::lines::need_of;
use crate::model::Checkpoint;
use crate::model::State;
use crate::model::arranged;
use crate::model::arranged_with;
use crate::model::count_blocks;
use crate::model::count_frames;
use crate::model::fr_blocks;
use crate::model::lemma_fr_blocks_len;
use crate::model::lemma_new_spill_counts_lines;
use crate::outcome::Moment;
use crate::outcome::chained;
use crate::outcome::distributed;
use crate::outcome::rest_of;
use crate::outcome::spec_forced;
use crate::work::ParSpillView;
use crate::work::WorkView;

verus! {

impl<'r> State<'r> {
    /// The state once a paragraph of the given lines has entered: the
    /// paragraph's spacing as weak spacing, the lines with the leading
    /// between them, and the spacing once more.
    pub open spec fn with_paragraph(
        self,
        tags: Seq<Tag>,
        spacing: Abs,
        lines: Seq<Frame>,
        align: Axes<FixedAlignment>,
        leading: Abs,
    ) -> State<'r> {
        self.rel(spacing, 4).after_lines(tags, lines, align, leading, lines.len()).rel(spacing, 4)
    }
}

/// The child for the line at `j`.
pub open spec fn line_child(
    lines: Seq<Frame>,
    leading: Abs,
    align: Axes<FixedAlignment>,
    costs: Costs,
    j: int,
) -> Child {
    Child::Line(
        Box::new(LineChild { frame: lines[j], align, need: need_of(lines, j, leading, costs) }),
    )
}

/// How many children the first `n` lines make: one for each line, and one
/// for the leading between two lines.
pub open spec fn line_children_len(n: nat) -> int {
    if n == 0 {
        0
    } else {
        2 * n - 1
    }
}

/// The children of the lines of a paragraph: at the even places stand the
/// lines, in their order, and at the odd places the leading between them.
pub proof fn lemma_line_children(
    lines: Seq<Frame>,
    leading: Abs,
    align: Axes<FixedAlignment>,
    costs: Costs,
    n: nat,
)
    ensures
        line_children(lines, leading, align, costs, n).len() == line_children_len(n),
        forall|i: int|
            0 <= i < line_children_len(n) ==> #[trigger] line_children(
                lines,
                leading,
                align,
                costs,
                n,
            )[i] == if i % 2 == 0 {
                line_child(lines, leading, align, costs, i / 2)
            } else {
                Child::Rel(Rel::spec_from_abs(leading), 5)
            },
    decreases n,
{
    if n > 0 {
        lemma_line_children(lines, leading, align, costs, (n - 1) as nat);
        let before = line_children(lines, leading, align, costs, (n - 1) as nat);
        let all = line_children(lines, leading, align, costs, n);
        assert forall|i: int| 0 <= i < line_children_len(n) implies #[trigger] all[i] == if i % 2
            == 0 {
            line_child(lines, leading, align, costs, i / 2)
        } else {
            Child::Rel(Rel::spec_from_abs(leading), 5)
        } by {
            if i < line_children_len((n - 1) as nat) {
                assert(all[i] == before[i]);
            }
        }
    }
}

/// In a region without end the height that is left stays without end,
/// whatever lines enter.
pub proof fn lemma_lines_leave_no_end(
    s: State,
    tags: Seq<Tag>,
    lines: Seq<Frame>,
    align: Axes<FixedAlignment>,
    leading: Abs,
    k: nat,
)
    requires
        s.height() == Abs::spec_inf(),
    ensures
        s.after_lines(tags, lines, align, leading, k).height() == Abs::spec_inf(),
        s.at_line(tags, lines, align, leading, k).height() == Abs::spec_inf(),
        s.after_lines(tags, lines, align, leading, k).regions.spec_base() == s.regions.spec_base(),
        s.at_line(tags, lines, align, leading, k).regions.spec_base() == s.regions.spec_base(),
    decreases k,
{
    if k > 0 {
        lemma_lines_leave_no_end(s, tags, lines, align, leading, (k - 1) as nat);
    }
}

/// Taking spacing with success leaves the state that the spacing makes,
/// and the children and the waiting tags as they were.
pub proof fn lemma_spacing_taken(before: Moment, after: Moment, amount: Abs, weakness: u8)
    requires
        before.state.child_taken(
            before.work,
            before.children,
            after.state,
            after.work,
            after.children,
        ),
        before.children[before.work.cursor as int] == Child::Rel(Rel::spec_from_abs(amount), weakness),
    ensures
        after.state == before.state.rel(amount, weakness),
        after.children == before.children,
        after.work.with_cursor(0) == before.work.with_cursor(0),
        after.work.cursor == before.work.cursor + 1,
{
    lemma_from_abs(amount, before.state.regions.spec_base().y);
    assert(after.children =~= before.children);
    assert(after.work.with_cursor(before.work.cursor).with_cursor(0) == after.work.with_cursor(0));
}

/// Taking a line with success in a region without end leaves the state
/// with the line in it, after the waiting tags, and the children as they
/// were.
pub proof fn lemma_line_taken(before: Moment, after: Moment, line: LineChild)
    requires
        before.state.child_taken(
            before.work,
            before.children,
            after.state,
            after.work,
            after.children,
        ),
        before.children[before.work.cursor as int] == Child::Line(Box::new(line)),
        before.state.height() == Abs::spec_inf(),
    ensures
        after.state == before.state.unstuck(line.frame.spec_is_empty()).framed(
            before.work.tags,
            line.frame,
            line.align,
            false,
        ),
        after.children == before.children,
        after.work.with_cursor(0) == before.work.with_tags(Seq::empty()).with_cursor(0),
        after.work.cursor == before.work.cursor + 1,
{
    assert(after.children =~= before.children);
    assert(!before.state.breaks_before(line.frame.size.y, line.need));
    assert(after.work.with_cursor(before.work.cursor).with_cursor(0) == after.work.with_cursor(0));
}

/// `chained`, kept closed until a proof asks for one of its links.
#[verifier::opaque]
pub open spec fn linked(moments: Seq<Moment>) -> bool {
    chained(moments)
}

/// A link of the chain: the moment at `i` leads to the one after it.
pub proof fn lemma_link(moments: Seq<Moment>, i: int)
    requires
        linked(moments),
        0 <= i,
        i + 1 < moments.len(),
    ensures
        moments[i].state.child_taken(
            moments[i].work,
            moments[i].children,
            moments[i + 1].state,
            moments[i + 1].work,
            moments[i + 1].children,
        ),
{
    reveal(linked);
}

/// `lemma_spacing_taken`, of the moment at `i` and the one after it.
pub proof fn lemma_spacing_taken_at(moments: Seq<Moment>, i: int, amount: Abs, weakness: u8)
    requires
        linked(moments),
        0 <= i,
        i + 1 < moments.len(),
        moments[i].children[moments[i].work.cursor as int] == Child::Rel(
            Rel::spec_from_abs(amount),
            weakness,
        ),
    ensures
        moments[i + 1].state == moments[i].state.rel(amount, weakness),
        moments[i + 1].children == moments[i].children,
        moments[i + 1].work.with_cursor(0) == moments[i].work.with_cursor(0),
        moments[i + 1].work.cursor == moments[i].work.cursor + 1,
{
    lemma_link(moments, i);
    lemma_spacing_taken(moments[i], moments[i + 1], amount, weakness);
}

/// `lemma_line_taken`, of the moment at `i` and the one after it.
pub proof fn lemma_line_taken_at(moments: Seq<Moment>, i: int, line: LineChild)
    requires
        linked(moments),
        0 <= i,
        i + 1 < moments.len(),
        moments[i].children[moments[i].work.cursor as int] == Child::Line(Box::new(line)),
        moments[i].state.height() == Abs::spec_inf(),
    ensures
        moments[i + 1].state == moments[i].state.unstuck(line.frame.spec_is_empty()).framed(
            moments[i].work.tags,
            line.frame,
            line.align,
            false,
        ),
        moments[i + 1].children == moments[i].children,
        moments[i + 1].work.with_cursor(0) == moments[i].work.with_tags(Seq::empty()).with_cursor(0),
        moments[i + 1].work.cursor == moments[i].work.cursor + 1,
{
    lemma_link(moments, i);
    lemma_line_taken(moments[i], moments[i + 1], line);
}

/// Where the children from the cursor on are those of the lines of a
/// paragraph, and they are taken with success one after the other in a
/// region without end, the state after the first `j` lines is that of
/// these lines having entered.
pub proof fn lemma_lines_taken(
    moments: Seq<Moment>,
    at: int,
    lines: Seq<Frame>,
    leading: Abs,
    align: Axes<FixedAlignment>,
    costs: Costs,
    j: nat,
)
    requires
        linked(moments),
        0 <= at,
        j <= lines.len(),
        at + line_children_len(j) < moments.len(),
        moments[at].state.height() == Abs::spec_inf(),
        moments[at].work.cursor + line_children_len(lines.len()) <= moments[at].children.len(),
        moments[at].children.subrange(
            moments[at].work.cursor as int,
            moments[at].work.cursor + line_children_len(lines.len()),
        ) == line_children(lines, leading, align, costs, lines.len()),
    ensures
        moments[at + line_children_len(j)].state == moments[at].state.after_lines(
            moments[at].work.tags,
            lines,
            align,
            leading,
            j,
        ),
        moments[at + line_children_len(j)].children == moments[at].children,
        moments[at + line_children_len(j)].work.cursor == moments[at].work.cursor + line_children_len(
            j,
        ),
        moments[at + line_children_len(j)].work.with_cursor(0) == if j == 0 {
            moments[at].work.with_cursor(0)
        } else {
            moments[at].work.with_tags(Seq::empty()).with_cursor(0)
        },
    decreases j,
{
    if j > 0 {
        let n = lines.len();
        let first = moments[at];
        let tags = first.work.tags;
        let all = line_children(lines, leading, align, costs, n);
        let held = first.children.subrange(
            first.work.cursor as int,
            first.work.cursor + line_children_len(n),
        );
        lemma_lines_taken(moments, at, lines, leading, align, costs, (j - 1) as nat);
        lemma_line_children(lines, leading, align, costs, n);
        lemma_lines_leave_no_end(first.state, tags, lines, align, leading, (j - 1) as nat);
        let done = at + line_children_len((j - 1) as nat);
        let line = LineChild {
            frame: lines[j - 1],
            align,
            need: need_of(lines, j - 1, leading, costs),
        };
        assert(all[2 * (j - 1)] == line_child(lines, leading, align, costs, j - 1));
        if j == 1 {
            assert(held[0] == all[0]);
            lemma_line_taken_at(moments, done, line);
        } else {
            assert(all[2 * (j - 1) - 1] == Child::Rel(Rel::spec_from_abs(leading), 5));
            assert(held[2 * (j - 1) - 1] == all[2 * (j - 1) - 1]);
            lemma_spacing_taken_at(moments, done, leading, 5);
            assert(moments[done + 1].state == first.state.at_line(
                tags,
                lines,
                align,
                leading,
                (j - 1) as nat,
            ));
            assert(held[2 * (j - 1)] == all[2 * (j - 1)]);
            lemma_line_taken_at(moments, done + 1, line);
        }
    }
}

/// Where the children from the cursor on are a paragraph's spacing, the
/// children of its lines and the spacing once more, and they are taken
/// with success one after the other in a region without end, the state
/// then is that of the paragraph having entered.
pub proof fn lemma_paragraph_taken(
    moments: Seq<Moment>,
    at: int,
    spacing: Abs,
    lines: Seq<Frame>,
    leading: Abs,
    align: Axes<FixedAlignment>,
    costs: Costs,
)
    requires
        linked(moments),
        0 <= at,
        moments.len() > at + line_children_len(lines.len()) + 2,
        moments[at].state.height() == Abs::spec_inf(),
        moments[at].work.cursor + line_children_len(lines.len()) + 2 <= moments[at].children.len(),
        moments[at].children[moments[at].work.cursor as int] == Child::Rel(
            Rel::spec_from_abs(spacing),
            4,
        ),
        moments[at].children.subrange(
            moments[at].work.cursor + 1,
            moments[at].work.cursor + 1 + line_children_len(lines.len()),
        ) == line_children(lines, leading, align, costs, lines.len()),
        moments[at].children[moments[at].work.cursor + 1 + line_children_len(lines.len())]
            == Child::Rel(Rel::spec_from_abs(spacing), 4),
    ensures
        moments[at + line_children_len(lines.len()) + 2].state == moments[at].state.with_paragraph(
            moments[at].work.tags,
            spacing,
            lines,
            align,
            leading,
        ),
        moments[at + line_children_len(lines.len()) + 2].work.with_cursor(0) == if lines.len() == 0 {
            moments[at].work.with_cursor(0)
        } else {
            moments[at].work.with_tags(Seq::empty()).with_cursor(0)
        },
        moments[at + line_children_len(lines.len()) + 2].work.cursor == moments[at].work.cursor
            + line_children_len(lines.len()) + 2,
        moments[at + line_children_len(lines.len()) + 2].children == moments[at].children,
{
    let last = at + 1 + line_children_len(lines.len());
    lemma_spacing_taken_at(moments, at, spacing, 4);
    lemma_lines_taken(moments, at + 1, lines, leading, align, costs, lines.len());
    lemma_spacing_taken_at(moments, last, spacing, 4);
}

/// Where, from the moment at `at` on, the children from the cursor on are
/// those that the collector makes of a paragraph and its lines, and they
/// are taken with success one after the other in a region without end,
/// the state then is that of the paragraph having entered.
pub proof fn lemma_laid_out_at(moments: Seq<Moment>, at: int, elem: ParElem, lines: Seq<Frame>)
    requires
        linked(moments),
        0 <= at,
        moments.len() > at + spec_par_lines(elem, lines).len(),
        moments[at].state.height() == Abs::spec_inf(),
        moments[at].work.cursor + spec_par_lines(elem, lines).len() <= moments[at].children.len(),
        moments[at].children.subrange(
            moments[at].work.cursor as int,
            moments[at].work.cursor + spec_par_lines(elem, lines).len(),
        ) == spec_par_lines(elem, lines),
    ensures
        moments[at + spec_par_lines(elem, lines).len()].state == moments[at].state.with_paragraph(
            moments[at].work.tags,
            elem.spacing,
            lines,
            elem.align,
            elem.leading,
        ),
        moments[at + spec_par_lines(elem, lines).len()].work.with_cursor(0) == if lines.len()
            == 0 {
            moments[at].work.with_cursor(0)
        } else {
            moments[at].work.with_tags(Seq::empty()).with_cursor(0)
        },
        moments[at + spec_par_lines(elem, lines).len()].work.cursor == moments[at].work.cursor
            + spec_par_lines(elem, lines).len(),
        moments[at + spec_par_lines(elem, lines).len()].children == moments[at].children,
{
    let children = moments[at].children;
    let start = moments[at].work.cursor as int;
    lemma_line_children(lines, elem.leading, elem.align, elem.costs, lines.len());
    lemma_par_children(children, start, elem, lines);
    lemma_paragraph_taken(moments, at, elem.spacing, lines, elem.leading, elem.align, elem.costs);
}

/// Where the children from the cursor on are those that the collector
/// makes of a paragraph and its lines, and they are taken with success one
/// after the other in a region without end, the state then is that of the
/// paragraph having entered.
pub proof fn lemma_laid_out_paragraph(moments: Seq<Moment>, elem: ParElem, lines: Seq<Frame>)
    requires
        chained(moments),
        moments.len() > spec_par_lines(elem, lines).len(),
        moments[0].state.height() == Abs::spec_inf(),
        moments[0].work.cursor + spec_par_lines(elem, lines).len() <= moments[0].children.len(),
        moments[0].children.subrange(
            moments[0].work.cursor as int,
            moments[0].work.cursor + spec_par_lines(elem, lines).len(),
        ) == spec_par_lines(elem, lines),
    ensures
        moments[spec_par_lines(elem, lines).len() as int].state == moments[0].state.with_paragraph(
            moments[0].work.tags,
            elem.spacing,
            lines,
            elem.align,
            elem.leading,
        ),
        moments[spec_par_lines(elem, lines).len() as int].work.with_cursor(0) == if lines.len()
            == 0 {
            moments[0].work.with_cursor(0)
        } else {
            moments[0].work.with_tags(Seq::empty()).with_cursor(0)
        },
        moments[spec_par_lines(elem, lines).len() as int].work.cursor == moments[0].work.cursor
            + spec_par_lines(elem, lines).len(),
        moments[spec_par_lines(elem, lines).len() as int].children == moments[0].children,
{
    assert(linked(moments)) by {
        reveal(linked);
    }
    lemma_laid_out_at(moments, 0, elem, lines);
}

/// Where a run of children is that of a paragraph that is laid out, the
/// run begins and ends with the paragraph's spacing and holds the children
/// of its lines between.
pub proof fn lemma_par_children(children: Seq<Child>, start: int, elem: ParElem, lines: Seq<Frame>)
    requires
        0 <= start,
        start + spec_par_lines(elem, lines).len() <= children.len(),
        children.subrange(start, start + spec_par_lines(elem, lines).len()) == spec_par_lines(
            elem,
            lines,
        ),
    ensures
        spec_par_lines(elem, lines).len() == line_children(
            lines,
            elem.leading,
            elem.align,
            elem.costs,
            lines.len(),
        ).len() + 2,
        children[start] == Child::Rel(Rel::spec_from_abs(elem.spacing), 4),
        children[start + spec_par_lines(elem, lines).len() - 1] == Child::Rel(
            Rel::spec_from_abs(elem.spacing),
            4,
        ),
        children.subrange(start + 1, start + spec_par_lines(elem, lines).len() - 1)
            == line_children(lines, elem.leading, elem.align, elem.costs, lines.len()),
{
    let all = spec_par_lines(elem, lines);
    let inner = line_children(lines, elem.leading, elem.align, elem.costs, lines.len());
    let held = children.subrange(start, start + all.len());
    assert(all.len() == inner.len() + 2);
    assert(held[0] == all[0]);
    assert(held[all.len() - 1] == all[all.len() - 1]);
    assert(children.subrange(start + 1, start + all.len() - 1) =~= inner) by {
        assert forall|i: int| 0 <= i < inner.len() implies children[start + 1 + i] == inner[i] by {
            assert(held[i + 1] == all[i + 1]);
        }
    }
}

/// Where all the lines of a paragraph that was put off until it is
/// distributed are placed with success, the state then is that of the
/// paragraph having entered.
pub proof fn lemma_put_off_paragraph(
    s: State,
    work: WorkView,
    elem: ParElem,
    lines: Seq<Frame>,
    put_off: State,
    work_put_off: WorkView,
)
    requires
        s.rel(elem.spacing, 4).lines_case(
            work,
            lines,
            elem.align,
            elem.leading,
            elem.costs,
            Rel::spec_from_abs(elem.spacing),
            true,
            None,
            0,
            lines.len(),
            Ok::<(), Stop>(()),
            put_off,
            work_put_off,
        ),
    ensures
        put_off == s.with_paragraph(work.tags, elem.spacing, lines, elem.align, elem.leading),
        work_put_off == if lines.len() == 0 {
            work
        } else {
            work.with_tags(Seq::empty())
        },
{
    let entered = s.rel(elem.spacing, 4);
    lemma_from_abs(elem.spacing, entered.regions.spec_base().y);
}

/// In a region without end, a paragraph comes to the same whether it is
/// laid out when it is collected or when it is distributed, if the engine
/// gives the same lines and the composer stops nothing: taking, one after
/// the other, the children that the collector makes of the paragraph and
/// its lines leaves the state, and but for the cursor the work, that
/// placing all the lines of the paragraph, put off until it is
/// distributed, leaves. The items of the two states are the same, and so
/// is the page that is arranged from them.
pub proof fn lemma_laid_out_or_put_off(
    moments: Seq<Moment>,
    elem: ParElem,
    lines: Seq<Frame>,
    put_off: State,
    work_put_off: WorkView,
)
    requires
        chained(moments),
        moments.len() > spec_par_lines(elem, lines).len(),
        moments[0].state.height() == Abs::spec_inf(),
        moments[0].work.cursor + spec_par_lines(elem, lines).len() <= moments[0].children.len(),
        moments[0].children.subrange(
            moments[0].work.cursor as int,
            moments[0].work.cursor + spec_par_lines(elem, lines).len(),
        ) == spec_par_lines(elem, lines),
        moments[0].state.rel(elem.spacing, 4).lines_case(
            moments[0].work,
            lines,
            elem.align,
            elem.leading,
            elem.costs,
            Rel::spec_from_abs(elem.spacing),
            true,
            None,
            0,
            lines.len(),
            Ok::<(), Stop>(()),
            put_off,
            work_put_off,
        ),
    ensures
        moments[spec_par_lines(elem, lines).len() as int].state == put_off,
        moments[spec_par_lines(elem, lines).len() as int].work.with_cursor(0)
            == work_put_off.with_cursor(0),
        moments[spec_par_lines(elem, lines).len() as int].children == moments[0].children,
{
    lemma_laid_out_paragraph(moments, elem, lines);
    lemma_put_off_paragraph(moments[0].state, moments[0].work, elem, lines, put_off, work_put_off);
}

/// A flow without children is distributed with success: where nothing
/// spilled over and no child is there, nothing is asked of the engine, and
/// the region ends with a frame.
pub proof fn lemma_empty_flow_distributes(
    regions: Regions<'_>,
    work: WorkView,
    r: Result<Page, Stop>,
    work_after: WorkView,
    children_after: Seq<Child>,
)
    requires
        work.spill is None,
        work.par_spill is None,
        distributed(regions, work, Seq::empty(), r, work_after, children_after),
    ensures
        r is Ok,
{
    let none = Seq::<Child>::empty();
    let start = State::initial(regions);
    let (first, ran, work_ran, children_ran) = choose|
        first: Result<(), Stop>,
        ran: State<'_>,
        work_ran: WorkView,
        children_ran: Seq<Child>,
    |
        #[trigger] start.run_outcome(work, none, first, ran, work_ran, children_ran) && if first is Err
            && !(first->Err_0 is Finish) {
            r == Err::<Page, Stop>(first->Err_0)
        } else {
            ran.finalize_outcome(
                work_ran,
                children_ran,
                Region { size: regions.size, expand: regions.expand },
                Checkpoint { work, items: 0 },
                spec_forced(first, work_ran, children_ran.len()),
                r,
                work_after,
                children_after,
            )
        };
    let (spilled, mid, work_mid, children_mid) = choose|
        spilled: Result<(), Stop>,
        mid: State<'_>,
        work_mid: WorkView,
        children_mid: Seq<Child>,
    |
        #[trigger] start.spill_taken(work, none, spilled, mid, work_mid, children_mid) && if spilled is Err {
            first == spilled && ran == mid
        } else {
            mid.after_spill(work_mid, children_mid, first, ran, work_ran, children_ran)
        };
    assert(mid.children_outcome(work_mid, children_mid, first, ran, work_ran, children_ran));
    let moments = choose|moments: Seq<Moment<'_>>| #[trigger]
        chained(moments) && moments.len() > 0 && moments[0] == mid.at(work_mid, children_mid)
            && if first is Ok {
            moments.last() == ran.at(work_ran, children_ran)
        } else {
            moments.last().state.child_stops(
                moments.last().work,
                moments.last().children,
                first,
                ran,
                work_ran,
                children_ran,
            )
        };
    if moments.len() > 1 {
        assert(moments[0].state.child_taken(
            moments[0].work,
            moments[0].children,
            moments[1].state,
            moments[1].work,
            moments[1].children,
        ));
    }
    assert(ran.items.len() == 0);
}

/// No line of a paragraph is counted twice: where what was left of a
/// paragraph spills again, be it that its lines are placed as they were
/// kept or that the paragraph is broken into lines again, the new spill
/// counts the lines that stood in regions before and the frames that this
/// region has taken.
pub proof fn lemma_spill_again_counts_lines(
    s: State,
    work: WorkView,
    spill: ParSpillView,
    r: Result<(), Stop>,
    after: State,
    work_after: WorkView,
)
    requires
        spill.lines_placed + spill.frames.len() <= usize::MAX,
        work.par_spill is None,
        work_after.par_spill is Some,
        s.par_spill_outcome(work, spill, r, after, work_after),
    ensures
        r == Err::<(), Stop>(Stop::Finish(false)),
        work_after.par_spill->0.lines_placed == spill.lines_placed + (count_frames(after.items)
            - count_frames(s.items)),
{
    if !s.regions.spec_is_full() {
        let no_cutouts = choose|no_cutouts: bool| #[trigger]
            s.spill_lines_outcome(work, spill, no_cutouts, r, after, work_after);
        lemma_spill_lines_count(s, work, spill, no_cutouts, r, after, work_after);
    }
}

/// `lemma_spill_again_counts_lines`, where the region is not full and it
/// is known whether the column has cutouts.
pub proof fn lemma_spill_lines_count(
    s: State,
    work: WorkView,
    spill: ParSpillView,
    no_cutouts: bool,
    r: Result<(), Stop>,
    after: State,
    work_after: WorkView,
)
    requires
        spill.lines_placed + spill.frames.len() <= usize::MAX,
        work.par_spill is None,
        work_after.par_spill is Some,
        s.spill_lines_outcome(work, spill, no_cutouts, r, after, work_after),
    ensures
        r == Err::<(), Stop>(Stop::Finish(false)),
        work_after.par_spill->0.lines_placed == spill.lines_placed + (count_frames(after.items)
            - count_frames(s.items)),
{
    if spill.par is Some && no_cutouts {
        let all = choose|all: Seq<Frame>|
            all.len() <= usize::MAX && #[trigger] s.relaid_outcome(
                work,
                spill,
                all,
                r,
                after,
                work_after,
            );
        lemma_new_spill_counts_lines(
            s,
            work,
            rest_of(all, spill.lines_placed),
            spill.align,
            spill.leading,
            spill.costs,
            spill.spacing,
            false,
            None,
            spill.lines_placed,
            r,
            after,
            work_after,
        );
    } else {
        lemma_new_spill_counts_lines(
            s,
            work,
            spill.frames,
            spill.align,
            spill.leading,
            spill.costs,
            spill.spacing,
            false,
            spill.par,
            spill.lines_placed,
            r,
            after,
            work_after,
        );
    }
}

impl<'r> State<'r> {
    /// Whether the state is that of an only region without end: all the
    /// height is left, no region follows, and so no group of sticky blocks
    /// waits to move on.
    pub open spec fn endless(self) -> bool {
        &&& self.height() == Abs::spec_inf()
        &&& self.regions.backlog@.len() == 0
        &&& self.regions.last is None
        &&& self.sticky is None
        &&& self.stickable != Some(true)
    }
}

/// Spacing leaves an only region without end as it is.
pub proof fn lemma_spacing_leaves_endless(s: State, amount: Abs, weakness: u8)
    requires
        s.endless(),
    ensures
        s.rel(amount, weakness).endless(),
        s.rel(amount, weakness).regions.spec_base() == s.regions.spec_base(),
{
}

/// The lines of a paragraph leave an only region without end as it is.
pub proof fn lemma_lines_leave_endless(
    s: State,
    tags: Seq<Tag>,
    lines: Seq<Frame>,
    align: Axes<FixedAlignment>,
    leading: Abs,
    k: nat,
)
    requires
        s.endless(),
    ensures
        s.after_lines(tags, lines, align, leading, k).endless(),
        s.at_line(tags, lines, align, leading, k).endless(),
    decreases k,
{
    if k > 0 {
        lemma_lines_leave_endless(s, tags, lines, align, leading, (k - 1) as nat);
        let before = s.after_lines(tags, lines, align, leading, (k - 1) as nat);
        if k > 1 {
            lemma_spacing_leaves_endless(before, leading, 5);
        }
    }
}

/// A paragraph leaves an only region without end as it is.
pub proof fn lemma_paragraph_leaves_endless(
    s: State,
    tags: Seq<Tag>,
    spacing: Abs,
    lines: Seq<Frame>,
    align: Axes<FixedAlignment>,
    leading: Abs,
)
    requires
        s.endless(),
    ensures
        s.with_paragraph(tags, spacing, lines, align, leading).endless(),
{
    lemma_spacing_leaves_endless(s, spacing, 4);
    let entered = s.rel(spacing, 4);
    lemma_lines_leave_endless(entered, tags, lines, align, leading, lines.len());
    lemma_spacing_leaves_endless(
        entered.after_lines(tags, lines, align, leading, lines.len()),
        spacing,
        4,
    );
}

/// Along a chain of moments the work moves on child by child, and the
/// children from the cursor on are as they were at the start.
pub proof fn lemma_children_ahead(moments: Seq<Moment>, i: int)
    requires
        linked(moments),
        0 <= i < moments.len(),
    ensures
        moments[i].work.cursor == moments[0].work.cursor + i,
        moments[i].children.len() == moments[0].children.len(),
        forall|j: int|
            moments[i].work.cursor <= j < moments[0].children.len() ==> #[trigger] moments[i].children[j]
                == moments[0].children[j],
    decreases i,
{
    if i > 0 {
        lemma_children_ahead(moments, i - 1);
        lemma_link(moments, i - 1);
    }
}

/// Whether a child can be compared across two flows in which it stands at
/// different places: it is no paragraph whose layout was put off, and no
/// block of fractional height, which is known by its place.
pub open spec fn comparable(child: Child) -> bool {
    &&& !(child is Par)
    &&& child is Single ==> child->Single_0.fr is None
}

/// In an only region without end, what a child leaves behind depends on
/// nothing but the state, the work and the answers of the engine and the
/// composer: where the same child is taken with success from the same
/// state, with the same waiting tags and floats, and the answers are the
/// same, which shows in the child's cell and in the floats that wait
/// afterwards, the state and the work are the same afterwards, but for the
/// cursor.
pub proof fn lemma_same_child_same_state(one: Moment, then: Moment, other: Moment, after: Moment)
    requires
        one.state.child_taken(one.work, one.children, then.state, then.work, then.children),
        other.state.child_taken(other.work, other.children, after.state, after.work, after.children),
        one.state == other.state,
        one.state.endless(),
        one.work.with_cursor(0) == other.work.with_cursor(0),
        one.children[one.work.cursor as int] == other.children[other.work.cursor as int],
        comparable(one.children[one.work.cursor as int]),
        then.children[one.work.cursor as int] == after.children[other.work.cursor as int],
        then.work.floats == after.work.floats,
    ensures
        then.state == after.state,
        then.state.endless(),
        then.work.with_cursor(0) == after.work.with_cursor(0),
{
    let s = one.state;
    let child = one.children[one.work.cursor as int];
    let w1 = then.work.with_cursor(one.work.cursor);
    let w2 = after.work.with_cursor(other.work.cursor);
    assert(w1.with_cursor(0) == then.work.with_cursor(0));
    assert(w2.with_cursor(0) == after.work.with_cursor(0));
    match child {
        Child::Rel(amount, weakness) => {
            lemma_spacing_leaves_endless(
                s,
                amount.relative_to_spec(s.regions.spec_base().y),
                weakness,
            );
        },
        _ => {},
    }
}

/// Whether the child at `i` of `put_off` stands in `laid` from `at[i]`
/// on, as itself or, if it is a paragraph whose layout was put off, as the
/// children that the collector makes of the paragraph and of `lines[i]`.
pub open spec fn part_alike(
    laid: Seq<Child>,
    put_off: Seq<Child>,
    at: Seq<int>,
    lines: Seq<Seq<Frame>>,
    i: int,
) -> bool {
    let child = put_off[i];
    &&& 0 <= at[i]
    &&& if child is Par {
        let par = *child->Par_0;
        let made = spec_par_lines(par.elem, lines[i]);
        &&& par.spacing == Rel::spec_from_abs(par.elem.spacing)
        &&& par.leading == par.elem.leading
        &&& par.align == par.elem.align
        &&& par.costs == par.elem.costs
        &&& at[i + 1] == at[i] + made.len()
        &&& at[i + 1] <= laid.len()
        &&& laid.subrange(at[i], at[i + 1]) == made
    } else {
        &&& at[i + 1] == at[i] + 1
        &&& at[i] < laid.len()
        &&& laid[at[i]] == child
    }
}

/// Whether `laid` holds the children of `put_off`, in their order, with
/// the children of its lines in the place of each paragraph whose layout
/// was put off: `at` says where each child of `put_off` stands in `laid`,
/// and `lines` holds the lines of each paragraph.
pub open spec fn laid_out_form(
    laid: Seq<Child>,
    put_off: Seq<Child>,
    at: Seq<int>,
    lines: Seq<Seq<Frame>>,
) -> bool {
    &&& at.len() == put_off.len() + 1
    &&& lines.len() == put_off.len()
    &&& at[0] == 0
    &&& at[put_off.len() as int] == laid.len()
    &&& forall|i: int| 0 <= i < put_off.len() ==> #[trigger] part_alike(laid, put_off, at, lines, i)
}

/// One more child that is no paragraph to lay out, at the end of both.
pub proof fn lemma_form_grows(
    laid: Seq<Child>,
    put_off: Seq<Child>,
    at: Seq<int>,
    lines: Seq<Seq<Frame>>,
    child: Child,
)
    requires
        laid_out_form(laid, put_off, at, lines),
        !(child is Par),
    ensures
        laid_out_form(
            laid.push(child),
            put_off.push(child),
            at.push(laid.len() + 1 as int),
            lines.push(Seq::empty()),
        ),
{
    let laid2 = laid.push(child);
    let put_off2 = put_off.push(child);
    let at2 = at.push(laid.len() + 1 as int);
    let lines2 = lines.push(Seq::empty());
    assert forall|i: int| 0 <= i < put_off2.len() implies #[trigger] part_alike(
        laid2,
        put_off2,
        at2,
        lines2,
        i,
    ) by {
        if i < put_off.len() {
            assert(part_alike(laid, put_off, at, lines, i));
            if put_off[i] is Par {
                assert(laid2.subrange(at[i], at[i + 1]) =~= laid.subrange(at[i], at[i + 1]));
            }
        }
    }
}

/// One more paragraph at the end of both: laid out in the one, put off in
/// the other.
pub proof fn lemma_form_grows_by_paragraph(
    laid: Seq<Child>,
    put_off: Seq<Child>,
    at: Seq<int>,
    lines: Seq<Seq<Frame>>,
    par: ParChild,
    made: Seq<Frame>,
)
    requires
        laid_out_form(laid, put_off, at, lines),
        par.spacing == Rel::spec_from_abs(par.elem.spacing),
        par.leading == par.elem.leading,
        par.align == par.elem.align,
        par.costs == par.elem.costs,
    ensures
        laid_out_form(
            laid + spec_par_lines(par.elem, made),
            put_off.push(Child::Par(Box::new(par))),
            at.push(laid.len() + spec_par_lines(par.elem, made).len() as int),
            lines.push(made),
        ),
{
    let added = spec_par_lines(par.elem, made);
    let laid2 = laid + added;
    let put_off2 = put_off.push(Child::Par(Box::new(par)));
    let at2 = at.push(laid.len() + added.len() as int);
    let lines2 = lines.push(made);
    assert forall|i: int| 0 <= i < put_off2.len() implies #[trigger] part_alike(
        laid2,
        put_off2,
        at2,
        lines2,
        i,
    ) by {
        if i < put_off.len() {
            assert(part_alike(laid, put_off, at, lines, i));
            if put_off[i] is Par {
                assert(laid2.subrange(at[i], at[i + 1]) =~= laid.subrange(at[i], at[i + 1]));
            }
        } else {
            assert(laid2.subrange(at2[i], at2[i + 1]) =~= added);
        }
    }
}

/// The collection of a flow with its paragraphs put off.
pub open spec fn put_off_setup(setup: Setup) -> Setup {
    Setup { deferred: true, ..setup }
}

/// What the collector makes of the same elements with the paragraphs laid
/// out at once is the laid-out form of what it makes of them with the
/// paragraphs put off: where the first goes through, with the lines that
/// the engine answered, so does the second, both leave the collector in
/// the same state but for the children, and the children of the first are
/// those of the second with the children of its lines in the place of each
/// paragraph.
pub proof fn lemma_collected_forms(
    start: Collected,
    elements: Seq<Element>,
    replies: Seq<Reply>,
    setup: Setup,
)
    requires
        !setup.deferred,
        replies.len() == elements.len(),
        answered(elements, replies, setup),
        start.output.len() == 0,
        start.steps(elements, replies, setup) is Ok,
    ensures
        start.steps(elements, replies, put_off_setup(setup)) is Ok,
        start.steps(elements, replies, put_off_setup(setup))->Ok_0.locator == start.steps(
            elements,
            replies,
            setup,
        )->Ok_0.locator,
        start.steps(elements, replies, put_off_setup(setup))->Ok_0.situation == start.steps(
            elements,
            replies,
            setup,
        )->Ok_0.situation,
        start.steps(elements, replies, put_off_setup(setup))->Ok_0.warnings == start.steps(
            elements,
            replies,
            setup,
        )->Ok_0.warnings,
        exists|at: Seq<int>, lines: Seq<Seq<Frame>>| #[trigger]
            laid_out_form(
                start.steps(elements, replies, setup)->Ok_0.output,
                start.steps(elements, replies, put_off_setup(setup))->Ok_0.output,
                at,
                lines,
            ),
    decreases elements.len(),
{
    let later = put_off_setup(setup);
    let one = start.steps(elements, replies, setup)->Ok_0;
    if elements.len() == 0 {
        assert(laid_out_form(start.output, start.output, seq![0int], Seq::empty()));
    } else {
        let elem = elements.last();
        let reply = replies.last();
        assert forall|i: int|
            0 <= i < elements.drop_last().len() && (#[trigger] elements.drop_last()[i]) is Par
                && !setup.deferred implies replies.drop_last()[i] is Some by {
            assert(elements[i] is Par);
        }
        lemma_collected_forms(start, elements.drop_last(), replies.drop_last(), setup);
        let b1 = start.steps(elements.drop_last(), replies.drop_last(), setup)->Ok_0;
        let b2 = start.steps(elements.drop_last(), replies.drop_last(), later)->Ok_0;
        let other = b2.step(elem, reply, later)->Ok_0;
        let (at, lines) = choose|at: Seq<int>, lines: Seq<Seq<Frame>>| #[trigger]
            laid_out_form(b1.output, b2.output, at, lines);
        match elem {
            Element::Par(par) => {
                assert(elements[elements.len() - 1] is Par);
                let made = reply->0->Ok_0;
                let child = spec_par_child(par, b2.locator.spec_next(), b2.situation, later);
                lemma_form_grows_by_paragraph(b1.output, b2.output, at, lines, *child->Par_0, made);
                assert(laid_out_form(
                    one.output,
                    other.output,
                    at.push(b1.output.len() + spec_par_lines(par, made).len() as int),
                    lines.push(made),
                ));
            },
            Element::Block(block) => {
                let above = spec_block_spacing(block.above, block.par_spacing);
                let child = spec_block_child(block, b2.locator.spec_next(), setup.alone);
                let below = spec_block_spacing(block.below, block.par_spacing);
                lemma_form_grows(b1.output, b2.output, at, lines, above);
                let at1 = at.push(b1.output.len() + 1 as int);
                let lines1 = lines.push(Seq::empty());
                lemma_form_grows(b1.output.push(above), b2.output.push(above), at1, lines1, child);
                let at2 = at1.push(b1.output.len() + 2 as int);
                let lines2 = lines1.push(Seq::empty());
                lemma_form_grows(
                    b1.output.push(above).push(child),
                    b2.output.push(above).push(child),
                    at2,
                    lines2,
                    below,
                );
                assert(laid_out_form(
                    one.output,
                    other.output,
                    at2.push(b1.output.len() + 3 as int),
                    lines2.push(Seq::empty()),
                ));
            },
            Element::Other(_) => {
                assert(laid_out_form(one.output, other.output, at, lines));
            },
            Element::Pagebreak(_) => {},
            _ => {
                let child = one.output.last();
                lemma_form_grows(b1.output, b2.output, at, lines, child);
                assert(laid_out_form(
                    one.output,
                    other.output,
                    at.push(b1.output.len() + 1 as int),
                    lines.push(Seq::empty()),
                ));
            },
        }
    }
}

/// Whether the engine and the composer answer alike for the next children
/// of two runs, the one over a flow whose paragraphs were laid out when
/// they were collected, the other over the same flow with the paragraphs
/// put off. The second run is at its moment `i`, the first at its moment
/// `at[i]`. Where the child of the second run is a paragraph, the engine
/// gives `lines[i]` for it and all of them are placed. For any other child
/// the answers are the same: its cell is the same afterwards, and so are
/// the floats that wait.
pub open spec fn answers_alike(
    laid: Seq<Moment>,
    put_off: Seq<Moment>,
    at: Seq<int>,
    lines: Seq<Seq<Frame>>,
    i: int,
) -> bool {
    let before = put_off[i];
    let child = put_off[0].children[i];
    if child is Par {
        let par = *child->Par_0;
        before.state.rel(par.elem.spacing, 4).lines_case(
            before.work,
            lines[i],
            par.elem.align,
            par.elem.leading,
            par.elem.costs,
            Rel::spec_from_abs(par.elem.spacing),
            true,
            None,
            0,
            lines[i].len(),
            Ok::<(), Stop>(()),
            put_off[i + 1].state,
            put_off[i + 1].work.with_cursor(before.work.cursor),
        )
    } else {
        &&& comparable(child)
        &&& i < put_off[0].children.len()
        &&& laid[at[i] + 1].children[at[i]] == put_off[i + 1].children[i]
        &&& laid[at[i] + 1].work.floats == put_off[i + 1].work.floats
    }
}

/// Whether two runs take their next children alike: the child of the one
/// stands in the other as itself or as the children of its lines, and the
/// engine and the composer answer alike. The children are those with
/// which the runs began.
pub open spec fn step_alike(
    laid: Seq<Moment>,
    put_off: Seq<Moment>,
    at: Seq<int>,
    lines: Seq<Seq<Frame>>,
    i: int,
) -> bool {
    &&& part_alike(laid[0].children, put_off[0].children, at, lines, i)
    &&& answers_alike(laid, put_off, at, lines, i)
}

/// One step of `lemma_runs_alike`: where the two runs stand alike in an
/// only region without end and take their next children alike, they stand
/// alike afterwards.
pub proof fn lemma_step_alike(
    laid: Seq<Moment>,
    put_off: Seq<Moment>,
    at: Seq<int>,
    lines: Seq<Seq<Frame>>,
    i: int,
)
    requires
        linked(laid),
        linked(put_off),
        laid[0].work.cursor == 0,
        put_off[0].work.cursor == 0,
        0 <= i,
        i + 1 < put_off.len(),
        0 <= at[i],
        at[i + 1] < laid.len(),
        laid[at[i]].state == put_off[i].state,
        laid[at[i]].state.endless(),
        laid[at[i]].work.with_cursor(0) == put_off[i].work.with_cursor(0),
        step_alike(laid, put_off, at, lines, i),
    ensures
        at[i] <= at[i + 1],
        laid[at[i + 1]].state == put_off[i + 1].state,
        laid[at[i + 1]].state.endless(),
        laid[at[i + 1]].work.with_cursor(0) == put_off[i + 1].work.with_cursor(0),
{
    let before = put_off[i];
    let child = put_off[0].children[i];
    let there = laid[at[i]];
    lemma_children_ahead(laid, at[i]);
    lemma_children_ahead(put_off, i);
    if child is Par {
        let par = *child->Par_0;
        let made = spec_par_lines(par.elem, lines[i]);
        let after = put_off[i + 1].work.with_cursor(before.work.cursor);
        let from = there.work.cursor as int;
        assert(there.children.subrange(from, from + made.len()) =~= laid[0].children.subrange(
            from,
            from + made.len(),
        ));
        lemma_laid_out_at(laid, at[i], par.elem, lines[i]);
        lemma_put_off_paragraph(
            before.state,
            before.work,
            par.elem,
            lines[i],
            put_off[i + 1].state,
            after,
        );
        lemma_paragraph_leaves_endless(
            there.state,
            there.work.tags,
            par.elem.spacing,
            lines[i],
            par.elem.align,
            par.elem.leading,
        );
        assert(after.with_cursor(0) == put_off[i + 1].work.with_cursor(0));
        assert(before.work.with_tags(Seq::empty()).with_cursor(0) == before.work.with_cursor(
            0,
        ).with_tags(Seq::empty()));
        assert(there.work.with_tags(Seq::empty()).with_cursor(0) == there.work.with_cursor(
            0,
        ).with_tags(Seq::empty()));
    } else {
        lemma_link(laid, at[i]);
        lemma_link(put_off, i);
        lemma_same_child_same_state(there, laid[at[i] + 1], before, put_off[i + 1]);
    }
}

/// `lemma_runs_alike`, over chains that are kept closed.
pub proof fn lemma_runs_alike_linked(
    laid: Seq<Moment>,
    put_off: Seq<Moment>,
    at: Seq<int>,
    lines: Seq<Seq<Frame>>,
    n: nat,
)
    requires
        linked(laid),
        linked(put_off),
        laid[0].work.cursor == 0,
        put_off[0].work.cursor == 0,
        n < put_off.len(),
        at[0] == 0,
        at[n as int] < laid.len(),
        laid[0].state == put_off[0].state,
        laid[0].state.endless(),
        laid[0].work.with_cursor(0) == put_off[0].work.with_cursor(0),
        forall|i: int| 0 <= i < n ==> #[trigger] step_alike(laid, put_off, at, lines, i),
    ensures
        0 <= at[n as int],
        laid[at[n as int]].state == put_off[n as int].state,
        laid[at[n as int]].state.endless(),
        laid[at[n as int]].work.with_cursor(0) == put_off[n as int].work.with_cursor(0),
    decreases n,
{
    if n > 0 {
        assert(step_alike(laid, put_off, at, lines, n - 1));
        assert(at[n - 1] <= at[n - 1 + 1]);
        lemma_runs_alike_linked(laid, put_off, at, lines, (n - 1) as nat);
        lemma_step_alike(laid, put_off, at, lines, n - 1);
    }
}

/// In an only region without end, a flow comes to the same whether its
/// paragraphs are laid out when they are collected or when they are
/// distributed, if the engine and the composer answer the same and stop
/// nothing. `put_off` is a run over the children with the paragraphs put
/// off, `laid` one over their laid-out form, both from the first child on,
/// and `at` says which moment of the one stands for which of the other.
/// Where the runs start alike and the answers are alike for the first `n`
/// children, the runs stand alike after them: in the same state, with the
/// same items, and with the same work but for the cursor. Blocks of
/// fractional height and floats that have to wait are left out: the state
/// and the work know them by their place among the children, which is not
/// the same in the two runs.
pub proof fn lemma_runs_alike(
    laid: Seq<Moment>,
    put_off: Seq<Moment>,
    at: Seq<int>,
    lines: Seq<Seq<Frame>>,
    n: nat,
)
    requires
        chained(laid),
        chained(put_off),
        laid.len() > 0,
        laid[0].work.cursor == 0,
        put_off[0].work.cursor == 0,
        laid_out_form(laid[0].children, put_off[0].children, at, lines),
        n <= put_off[0].children.len(),
        n < put_off.len(),
        at[n as int] < laid.len(),
        laid[0].state == put_off[0].state,
        laid[0].state.endless(),
        laid[0].work.with_cursor(0) == put_off[0].work.with_cursor(0),
        forall|i: int| 0 <= i < n ==> #[trigger] answers_alike(laid, put_off, at, lines, i),
    ensures
        laid[at[n as int]].state == put_off[n as int].state,
        laid[at[n as int]].work.with_cursor(0) == put_off[n as int].work.with_cursor(0),
        laid[at[n as int]].work.cursor == at[n as int],
        put_off[n as int].work.cursor == n,
{
    assert(linked(laid) && linked(put_off)) by {
        reveal(linked);
    }
    assert forall|i: int| 0 <= i < n implies #[trigger] step_alike(laid, put_off, at, lines, i) by {
        assert(part_alike(laid[0].children, put_off[0].children, at, lines, i));
        assert(answers_alike(laid, put_off, at, lines, i));
    }
    lemma_runs_alike_linked(laid, put_off, at, lines, n);
    lemma_children_ahead(laid, at[n as int]);
    lemma_children_ahead(put_off, n as int);
}

/// Where two runs have come to the same state with the same waiting
/// tags, and the region holds no block of fractional height once it has
/// settled, the region ends with success, and the frame with which the one
/// run ends it is an arrangement of the items of the other run too,
/// whatever the children of the two runs are.
pub proof fn lemma_same_end_same_page(
    s: State,
    one: WorkView,
    other: WorkView,
    children: Seq<Child>,
    others: Seq<Child>,
    region: Region,
    init: Checkpoint,
    other_init: Checkpoint,
    forced: bool,
    r: Result<Page, Stop>,
    work_after: WorkView,
    children_after: Seq<Child>,
)
    requires
        one.tags == other.tags,
        init.items == other_init.items,
        count_blocks(s.settled(init, forced, one.tags).items) == 0,
        s.finalize_outcome(one, children, region, init, forced, r, work_after, children_after),
    ensures
        s.settled(other_init, forced, other.tags) == s.settled(init, forced, one.tags),
        r is Ok,
        arranged(
            s.settled(other_init, forced, other.tags).items,
            region,
            others,
            r->Ok_0.size,
            r->Ok_0.pieces@,
        ),
{
    let items = s.settled(init, forced, one.tags).items;
    lemma_fr_blocks_len(items);
    let page = r->Ok_0;
    let (fr_frames, insertion) = choose|fr_frames: Seq<Frame>, insertion: Abs|
        fr_frames.len() == fr_blocks(items).len() && #[trigger] arranged_with(
            items,
            fr_frames,
            region,
            insertion,
            page.size,
            page.pieces@,
        );
    assert(arranged_with(items, fr_frames, region, insertion, page.size, page.pieces@));
}

} // verus!
