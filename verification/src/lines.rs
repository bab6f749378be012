//! What a line of a paragraph needs around it, so that no line is left
//! alone at the end or at the start of a region.

use vstd::prelude::*;
use crate::abs::Abs;
use crate::elements::Costs;
use crate::frame::Frame;

verus! {

/// Whether the first line is kept with the second: leaving a line alone at
/// the bottom has a cost, there are two lines, and the second holds
/// something.
pub open spec fn spec_prevent_orphans(lines: Seq<Frame>, costs: Costs) -> bool {
    costs.orphan.raw > 0 && lines.len() >= 2 && !lines[1].spec_is_empty()
}

/// Whether the last line is kept with the one before it: leaving a line
/// alone at the top has a cost, there are two lines, and the one before
/// the last holds something.
pub open spec fn spec_prevent_widows(lines: Seq<Frame>, costs: Costs) -> bool {
    costs.widow.raw > 0 && lines.len() >= 2 && !lines[lines.len() - 2].spec_is_empty()
}

/// The height that has to be free for the line at `i` to be placed. The
/// first line of three that are kept together at both ends needs room for
/// all three; a first line that is kept with the second needs room for
/// both; the line before the last, from the third line on, needs room for
/// itself and the last where those two are kept together. Any other line
/// needs its own height. Between two lines lies the leading.
pub open spec fn need_of(lines: Seq<Frame>, i: int, leading: Abs, costs: Costs) -> Abs {
    let len = lines.len() as int;
    let orphans = spec_prevent_orphans(lines, costs);
    let widows = spec_prevent_widows(lines, costs);
    if len == 3 && orphans && widows && i == 0 {
        lines[0].size.y.add_spec(leading).add_spec(lines[1].size.y).add_spec(leading).add_spec(
            lines[2].size.y,
        )
    } else if orphans && i == 0 {
        lines[0].size.y.add_spec(leading).add_spec(lines[1].size.y)
    } else if widows && i >= 2 && i + 2 == len {
        lines[len - 2].size.y.add_spec(leading).add_spec(lines[len - 1].size.y)
    } else {
        lines[i].size.y
    }
}

pub fn prevent_orphans(lines: &Vec<Frame>, costs: Costs) -> (r: bool)
    ensures
        r == spec_prevent_orphans(lines@, costs),
{
    costs.orphan().is_positive() && lines.len() >= 2 && !lines[1].is_empty()
}

pub fn prevent_widows(lines: &Vec<Frame>, costs: Costs) -> (r: bool)
    ensures
        r == spec_prevent_widows(lines@, costs),
{
    costs.widow().is_positive() && lines.len() >= 2 && !lines[lines.len() - 2].is_empty()
}

/// The height that has to be free for the line at `i` to be placed.
pub fn line_need(lines: &Vec<Frame>, i: usize, leading: Abs, costs: Costs) -> (need: Abs)
    requires
        i < lines@.len(),
    ensures
        need == need_of(lines@, i as int, leading, costs),
{
    let len = lines.len();
    let orphans = prevent_orphans(lines, costs);
    let widows = prevent_widows(lines, costs);
    if len == 3 && orphans && widows && i == 0 {
        lines[0].height().plus(leading).plus(lines[1].height()).plus(leading).plus(
            lines[2].height(),
        )
    } else if orphans && i == 0 {
        lines[0].height().plus(leading).plus(lines[1].height())
    } else if widows && i >= 2 && len - i == 2 {
        lines[len - 2].height().plus(leading).plus(lines[len - 1].height())
    } else {
        lines[i].height()
    }
}

} // verus!
