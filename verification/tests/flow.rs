use flowcore::abs::{Abs, Fr, Ratio, Rel};
use flowcore::arrange::{arrange, distribute, fr_space, measure, widest};
use flowcore::cell::CachedCell;
use flowcore::child::{
    Child, ChildKind, LineChild, MastheadChild, MultiChild, MultiSpill, ParChild, PlacedChild,
    SingleChild, WrapChild,
};
use flowcore::collect::collect;
use flowcore::cutout::{CutoutSide, RegionCutout};
use flowcore::diag::{ErrorKind, SourceError, Stop};
use flowcore::distribute::{float_answered, Distributor};
use flowcore::elements::{
    BlockElem, Costs, Element, FlowMode, LineStyle, ParElem, ParSituation,
};
use flowcore::engine::{
    Composer, Engine, Fragment, InlineContext, Locator, Warning,
};
use flowcore::frame::{Content, Frame, FrameContent, Location, Piece, Span, Tag};
use flowcore::geom::{
    Alignment, Axes, FixedAlignment, PlacementScope, Region, Regions, Size, Smart,
};
use flowcore::model::{FrBlock, Item, Placing, Sheet};
use flowcore::work::{ParSpill, Work};

fn pt(val: i64) -> Abs {
    Abs::pt(val)
}

fn size(w: i64, h: i64) -> Size {
    Axes::new(pt(w), pt(h))
}

fn frame(id: u64, w: i64, h: i64) -> Frame {
    Frame::new(id, size(w, h), FrameContent::Visible)
}

fn start() -> Axes<FixedAlignment> {
    Axes::new(FixedAlignment::Start, FixedAlignment::Start)
}

fn costs(widow: i64, orphan: i64) -> Costs {
    Costs { widow: Ratio::raw(widow), orphan: Ratio::raw(orphan) }
}

fn regions<'a>(height: Abs, backlog: &'a [Abs], last: Option<Abs>) -> Regions<'a> {
    Regions {
        size: Axes::new(pt(200), height),
        expand: Axes::new(false, false),
        full: height,
        backlog,
        last,
    }
}

fn block_elem(id: u64) -> BlockElem {
    BlockElem {
        body: Content { id },
        above: Smart::Auto,
        below: Smart::Auto,
        par_spacing: pt(0),
        sticky: false,
        breakable: false,
        height: None,
        align: start(),
        span: Span { id },
    }
}

fn par_elem(id: u64) -> ParElem {
    ParElem {
        body: Content { id },
        spacing: pt(0),
        leading: pt(0),
        align: start(),
        costs: costs(0, 0),
        span: Span { id },
    }
}

fn single(id: u64, sticky: bool) -> Child {
    Child::Single(Box::new(SingleChild {
        align: start(),
        sticky,
        alone: false,
        fr: None,
        elem: block_elem(id),
        locator: Locator { base: 0, index: id },
        cell: CachedCell::new(),
    }))
}

/// An engine and composer that answers from a script.
struct Script {
    cutouts: Vec<RegionCutout>,
    lines_beside_cutouts: Vec<Frame>,
    lines: Vec<Frame>,
    blocks: Vec<(u64, Frame)>,
    fragment: Vec<Frame>,
    stop_at_frame: Option<(u64, Stop)>,
    float_waits: bool,
    insertion: Abs,
    warnings: Vec<String>,
    par_calls: usize,
    block_calls: usize,
    seen_y_offset: Option<Abs>,
    seen_regions_height: Option<Abs>,
}

fn script() -> Script {
    Script {
        cutouts: vec![],
        lines_beside_cutouts: vec![],
        lines: vec![],
        blocks: vec![],
        fragment: vec![],
        stop_at_frame: None,
        float_waits: false,
        insertion: pt(0),
        warnings: vec![],
        par_calls: 0,
        block_calls: 0,
        seen_y_offset: None,
        seen_regions_height: None,
    }
}

impl Engine for Script {
    fn layout_par(
        &mut self,
        _elem: &ParElem,
        _locator: Locator,
        _base: Size,
        _expand: bool,
        _situation: ParSituation,
    ) -> Result<Vec<Frame>, SourceError> {
        self.par_calls += 1;
        Ok(self.lines.clone())
    }

    fn layout_par_with_context(
        &mut self,
        _elem: &ParElem,
        _locator: Locator,
        _base: Size,
        _expand: bool,
        _situation: ParSituation,
        context: Option<InlineContext<'_>>,
    ) -> Result<Vec<Frame>, SourceError> {
        self.par_calls += 1;
        match context {
            Some(context) => {
                self.seen_y_offset = Some(context.y_offset);
                Ok(self.lines_beside_cutouts.clone())
            }
            None => Ok(self.lines.clone()),
        }
    }

    fn layout_inline(
        &mut self,
        _children: &[Element],
        _locator: Locator,
        _base: Size,
        _expand: bool,
    ) -> Result<Vec<Frame>, SourceError> {
        Ok(self.lines.clone())
    }

    fn layout_single_block(
        &mut self,
        elem: &BlockElem,
        _locator: Locator,
        region: Region,
    ) -> Result<Frame, SourceError> {
        self.block_calls += 1;
        self.seen_regions_height = Some(region.size.y);
        for (id, frame) in &self.blocks {
            if *id == elem.body.id {
                return Ok(*frame);
            }
        }
        Err(SourceError::new(elem.span, ErrorKind::Engine(7)))
    }

    fn layout_multi_block(
        &mut self,
        _elem: &BlockElem,
        _locator: Locator,
        _regions: Regions<'_>,
    ) -> Result<Fragment, SourceError> {
        self.block_calls += 1;
        Ok(Fragment::frames(self.fragment[0], self.fragment[1..].to_vec()))
    }

    fn layout_frame(
        &mut self,
        body: Content,
        _locator: Locator,
        _align: Option<Alignment>,
        region: Region,
    ) -> Result<Frame, SourceError> {
        Ok(Frame::new(body.id, Axes::new(pt(30), region.size.y.min(pt(20))), FrameContent::Visible))
    }

    fn warn(&mut self, warning: Warning) {
        self.warnings.push(warning.message());
    }
}

impl Composer for Script {
    fn column_cutouts(&self) -> Vec<RegionCutout> {
        self.cutouts.clone()
    }

    fn footnotes(
        &mut self,
        _regions: &Regions<'_>,
        frame: &Frame,
        _flow_need: Abs,
        _breakable: bool,
        _migratable: bool,
    ) -> Result<(), Stop> {
        match self.stop_at_frame {
            Some((id, stop)) if id == frame.id => Err(stop),
            _ => Ok(()),
        }
    }

    fn float(
        &mut self,
        _placed: &mut PlacedChild,
        regions: &Regions<'_>,
        _clearance: bool,
        _migratable: bool,
    ) -> Result<bool, Stop> {
        self.seen_regions_height = Some(regions.size.y);
        Ok(self.float_waits)
    }

    fn wrap(
        &mut self,
        _wrap: &mut WrapChild,
        regions: &Regions<'_>,
        y: Abs,
        _has_frame: bool,
    ) -> Result<(), Stop> {
        self.seen_y_offset = Some(y);
        self.seen_regions_height = Some(regions.size.y);
        Ok(())
    }

    fn masthead(
        &mut self,
        _masthead: &mut MastheadChild,
        _regions: &Regions<'_>,
        y: Abs,
        _has_frame: bool,
    ) -> Result<(), Stop> {
        self.seen_y_offset = Some(y);
        Err(Stop::Relayout(PlacementScope::Column))
    }

    fn insertion_width(&self) -> Abs {
        self.insertion
    }
}

fn frames_of(pieces: &[flowcore::frame::Placement]) -> Vec<(u64, Abs)> {
    let mut out = vec![];
    for placement in pieces {
        if let Piece::Frame(frame) = placement.piece {
            out.push((frame.id, placement.pos.y));
        }
    }
    out
}

fn abs_items(items: &[Item]) -> Vec<(Abs, u8)> {
    let mut out = vec![];
    for item in items {
        if let Item::Abs(amount, weakness) = item {
            out.push((*amount, *weakness));
        }
    }
    out
}

fn with_frame<'a>(height: i64, backlog: &'a [Abs]) -> (Distributor<'a>, Work) {
    let mut distributor = Distributor::new(regions(pt(height), backlog, None));
    let mut work = Work::new();
    let entered = distributor.place_frame(&mut work, frame(1, 50, 10), start(), false, Ok(()));
    assert_eq!(entered, Ok(()));
    (distributor, work)
}

#[test]
fn spacing_collapse_keeps_the_larger() {
    let (mut distributor, _work) = with_frame(100, &[]);
    distributor.rel(Rel::from_abs(pt(12)), 1);
    distributor.rel(Rel::from_abs(pt(20)), 1);
    assert_eq!(abs_items(&distributor.items), vec![(pt(20), 1)]);
    assert_eq!(distributor.items.len(), 2);
    assert_eq!(distributor.regions.size.y, pt(100 - 10 - 20));
}

#[test]
fn spacing_collapse_keeps_the_larger_in_either_order() {
    let (mut distributor, _work) = with_frame(100, &[]);
    distributor.rel(Rel::from_abs(pt(20)), 1);
    distributor.rel(Rel::from_abs(pt(12)), 1);
    assert_eq!(abs_items(&distributor.items), vec![(pt(20), 1)]);
    assert_eq!(distributor.regions.size.y, pt(70));
}

#[test]
fn spacing_collapse_at_the_top_of_a_region() {
    let mut distributor = Distributor::new(regions(pt(100), &[], None));
    distributor.rel(Rel::from_abs(pt(12)), 1);
    assert_eq!(abs_items(&distributor.items), vec![(pt(12), 1)]);
    distributor.rel(Rel::from_abs(pt(20)), 1);
    assert_eq!(abs_items(&distributor.items), vec![(pt(20), 1)]);
    assert_eq!(distributor.items.len(), 1);
    assert_eq!(distributor.regions.size.y, pt(80));
}

#[test]
fn weaker_spacing_gives_way_to_stronger() {
    let (mut distributor, _work) = with_frame(100, &[]);
    distributor.rel(Rel::from_abs(pt(10)), 1);
    distributor.rel(Rel::from_abs(pt(20)), 3);
    assert_eq!(abs_items(&distributor.items), vec![(pt(10), 1)]);
    assert_eq!(distributor.regions.size.y, pt(80));

    let (mut distributor, _work) = with_frame(100, &[]);
    distributor.rel(Rel::from_abs(pt(20)), 3);
    distributor.rel(Rel::from_abs(pt(10)), 1);
    assert_eq!(abs_items(&distributor.items), vec![(pt(10), 1)]);
    assert_eq!(distributor.regions.size.y, pt(80));
}

#[test]
fn strong_spacing_always_enters() {
    let mut distributor = Distributor::new(regions(pt(100), &[], None));
    distributor.rel(Rel::from_abs(pt(12)), 0);
    distributor.rel(Rel::from_abs(pt(20)), 0);
    assert_eq!(abs_items(&distributor.items), vec![(pt(12), 0), (pt(20), 0)]);
    assert_eq!(distributor.regions.size.y, pt(68));
    assert_eq!(distributor.current_y(), pt(32));
}

#[test]
fn weak_spacing_looks_past_strong_spacing_and_tags() {
    let (mut distributor, mut work) = with_frame(100, &[]);
    distributor.rel(Rel::from_abs(pt(5)), 2);
    distributor.rel(Rel::from_abs(pt(3)), 0);
    distributor.tag(&mut work, Tag { id: 9 });
    distributor.flush_tags(&mut work);
    distributor.rel(Rel::from_abs(pt(8)), 2);
    assert_eq!(abs_items(&distributor.items), vec![(pt(8), 2), (pt(3), 0)]);
    assert_eq!(distributor.regions.size.y, pt(100 - 10 - 8 - 3));
    assert_eq!(distributor.weak_spacing(), pt(8));
}

#[test]
fn relative_spacing_is_measured_against_the_full_height() {
    let mut distributor = Distributor::new(regions(pt(100), &[], None));
    distributor.rel(Rel::new(Ratio::raw(65536 / 4), pt(1)), 0);
    assert_eq!(abs_items(&distributor.items), vec![(pt(26), 0)]);
}

#[test]
fn weak_spacing_after_fractional_spacing_vanishes() {
    let (mut distributor, _work) = with_frame(100, &[]);
    distributor.fr(Fr::one(), 0);
    distributor.rel(Rel::from_abs(pt(12)), 1);
    assert_eq!(distributor.items.len(), 2);
    assert_eq!(distributor.regions.size.y, pt(90));
}

#[test]
fn fractional_spacing_takes_trailing_weak_spacing_away() {
    let (mut distributor, _work) = with_frame(100, &[]);
    distributor.rel(Rel::from_abs(pt(12)), 4);
    assert_eq!(distributor.regions.size.y, pt(78));
    distributor.fr(Fr::one(), 0);
    assert_eq!(abs_items(&distributor.items), vec![]);
    assert_eq!(distributor.items.len(), 2);
    assert_eq!(distributor.regions.size.y, pt(90));
}

#[test]
fn weak_fractional_spacing_collapses() {
    let (mut distributor, _work) = with_frame(100, &[]);
    distributor.fr(Fr::raw(1), 2);
    distributor.fr(Fr::raw(3), 2);
    distributor.fr(Fr::raw(2), 2);
    assert_eq!(distributor.items.len(), 2);
    match distributor.items[1] {
        Item::Fr(fr, weakness, None) => {
            assert_eq!(fr, Fr::raw(3));
            assert_eq!(weakness, 2);
        }
        _ => panic!("the second item is fractional spacing"),
    }
    distributor.fr(Fr::raw(1), 1);
    match distributor.items[1] {
        Item::Fr(fr, weakness, None) => {
            assert_eq!(fr, Fr::raw(1));
            assert_eq!(weakness, 1);
        }
        _ => panic!("the second item is fractional spacing"),
    }
}

#[test]
fn weak_fractional_spacing_at_the_top_of_a_region() {
    let mut distributor = Distributor::new(regions(pt(100), &[], None));
    distributor.fr(Fr::one(), 2);
    assert_eq!(distributor.items.len(), 1);
    distributor.fr(Fr::raw(3), 2);
    assert_eq!(distributor.items.len(), 1);
    assert!(matches!(distributor.items[0], Item::Fr(Fr { raw: 65536 }, 2, None)));
    distributor.fr(Fr::one(), 0);
    assert_eq!(distributor.items.len(), 1);
    assert!(matches!(distributor.items[0], Item::Fr(_, 0, None)));
    distributor.fr(Fr::one(), 2);
    assert_eq!(distributor.items.len(), 2);
}

#[test]
fn trimming_gives_the_height_back() {
    let (mut distributor, _work) = with_frame(100, &[]);
    distributor.rel(Rel::from_abs(pt(12)), 4);
    distributor.rel(Rel::from_abs(pt(5)), 0);
    distributor.trim_spacing();
    assert_eq!(abs_items(&distributor.items), vec![(pt(5), 0)]);
    assert_eq!(distributor.regions.size.y, pt(85));
    distributor.trim_spacing();
    assert_eq!(abs_items(&distributor.items), vec![(pt(5), 0)]);
    assert_eq!(distributor.regions.size.y, pt(85));
}

#[test]
fn height_account_balances() {
    let (mut distributor, mut work) = with_frame(100, &[]);
    distributor.rel(Rel::from_abs(pt(7)), 0);
    distributor.rel(Rel::from_abs(pt(4)), 2);
    distributor.rel(Rel::from_abs(pt(9)), 2);
    let entered = distributor.place_frame(&mut work, frame(2, 50, 30), start(), false, Ok(()));
    assert_eq!(entered, Ok(()));
    distributor.rel(Rel::from_abs(pt(6)), 5);
    distributor.trim_spacing();
    let used = distributor.current_y();
    assert_eq!(used, pt(10 + 7 + 9 + 30));
    assert_eq!(used.plus(distributor.regions.size.y), pt(100));
}

#[test]
fn a_stop_of_the_composer_leaves_the_frame_out() {
    let mut distributor = Distributor::new(regions(pt(100), &[], None));
    let mut work = Work::new();
    distributor.tag(&mut work, Tag { id: 1 });
    let stop = Err(Stop::Relayout(PlacementScope::Parent));
    let entered = distributor.place_frame(&mut work, frame(1, 50, 10), start(), false, stop);
    assert_eq!(entered, stop);
    assert_eq!(distributor.items.len(), 0);
    assert_eq!(work.tags.len(), 1);
    assert_eq!(distributor.regions.size.y, pt(100));
}

#[test]
fn tags_enter_before_the_frame() {
    let mut distributor = Distributor::new(regions(pt(100), &[], None));
    let mut work = Work::new();
    distributor.tag(&mut work, Tag { id: 1 });
    distributor.tag(&mut work, Tag { id: 2 });
    let entered = distributor.place_frame(&mut work, frame(7, 50, 10), start(), false, Ok(()));
    assert_eq!(entered, Ok(()));
    assert_eq!(work.tags.len(), 0);
    assert_eq!(distributor.items.len(), 3);
    assert!(matches!(distributor.items[0], Item::Tag(Tag { id: 1 })));
    assert!(matches!(distributor.items[1], Item::Tag(Tag { id: 2 })));
    assert!(matches!(distributor.items[2], Item::Frame(_, _)));
    assert!(distributor.has_frame());
}

#[test]
fn a_line_without_room_ends_the_region() {
    let backlog = [pt(100)];
    let mut distributor = Distributor::new(regions(pt(8), &backlog, None));
    let mut work = Work::new();
    let mut composer = script();
    let line = LineChild { frame: frame(1, 50, 10), align: start(), need: pt(10) };
    assert_eq!(distributor.line(&mut composer, &mut work, &line), Err(Stop::Finish(false)));
    assert_eq!(distributor.items.len(), 0);

    let mut distributor = Distributor::new(regions(pt(8), &[], None));
    assert_eq!(distributor.line(&mut composer, &mut work, &line), Ok(()));
    assert_eq!(distributor.items.len(), 1);
    assert_eq!(distributor.regions.size.y, pt(-2));
}

#[test]
fn a_line_moves_on_with_what_it_needs() {
    let backlog = [pt(40)];
    let mut distributor = Distributor::new(regions(pt(26), &backlog, None));
    let mut work = Work::new();
    let mut composer = script();
    let line = LineChild { frame: frame(1, 50, 10), align: start(), need: pt(34) };
    assert!(distributor.breaks_before(pt(10), pt(34)));
    assert_eq!(distributor.line(&mut composer, &mut work, &line), Err(Stop::Finish(false)));

    let backlog = [pt(30)];
    let mut distributor = Distributor::new(regions(pt(26), &backlog, None));
    assert!(!distributor.breaks_before(pt(10), pt(34)));
    assert_eq!(distributor.line(&mut composer, &mut work, &line), Ok(()));
}

#[test]
fn line_needs() {
    let lines = vec![frame(0, 50, 10), frame(1, 50, 11), frame(2, 50, 12)];
    let leading = pt(2);
    let both = costs(1, 1);
    assert_eq!(flowcore::lines::line_need(&lines, 0, leading, both), pt(10 + 2 + 11 + 2 + 12));
    assert_eq!(flowcore::lines::line_need(&lines, 1, leading, both), pt(11));
    assert_eq!(flowcore::lines::line_need(&lines, 2, leading, both), pt(12));
    assert_eq!(flowcore::lines::line_need(&lines, 0, leading, costs(0, 1)), pt(10 + 2 + 11));
    assert_eq!(flowcore::lines::line_need(&lines, 0, leading, costs(1, 0)), pt(10));
    assert_eq!(flowcore::lines::line_need(&lines, 0, leading, costs(0, 0)), pt(10));

    let lines =
        vec![frame(0, 50, 10), frame(1, 50, 11), frame(2, 50, 12), frame(3, 50, 13)];
    assert_eq!(flowcore::lines::line_need(&lines, 0, leading, both), pt(10 + 2 + 11));
    assert_eq!(flowcore::lines::line_need(&lines, 1, leading, both), pt(11));
    assert_eq!(flowcore::lines::line_need(&lines, 2, leading, both), pt(12 + 2 + 13));
    assert_eq!(flowcore::lines::line_need(&lines, 3, leading, both), pt(13));

    let two = vec![frame(0, 50, 10), frame(1, 50, 11)];
    assert_eq!(flowcore::lines::line_need(&two, 0, leading, both), pt(10 + 2 + 11));
    assert_eq!(flowcore::lines::line_need(&two, 1, leading, both), pt(11));

    let hollow = vec![
        frame(0, 50, 10),
        Frame::new(1, size(50, 11), FrameContent::Empty),
        frame(2, 50, 12),
        frame(3, 50, 13),
    ];
    assert!(!flowcore::lines::prevent_orphans(&hollow, both));
    assert!(flowcore::lines::prevent_widows(&hollow, both));
    assert_eq!(flowcore::lines::line_need(&hollow, 0, leading, both), pt(10));
}

fn three_lines() -> Vec<Child> {
    let lines = vec![frame(10, 50, 10), frame(11, 50, 10), frame(12, 50, 10)];
    let mut elem = par_elem(1);
    elem.leading = pt(2);
    elem.costs = costs(1, 1);
    let mut engine = script();
    engine.lines = lines;
    let children = flowcore::collect::collect(
        &mut engine,
        &[Element::Par(elem)],
        Locator::new(0),
        size(200, 100),
        false,
        flowcore::elements::FlowMode::Block,
        flowcore::elements::LineStyle { leading: pt(0), align: start(), costs: costs(0, 0) },
    );
    children.unwrap()
}

#[test]
fn widow_prevention_moves_all_lines() {
    let mut children = three_lines();
    assert_eq!(children.len(), 7);
    match &children[1] {
        Child::Line(line) => assert_eq!(line.need, pt(34)),
        _ => panic!("the second child is the first line"),
    }
    let mut composer = script();
    let mut work = Work::new();
    let backlog = [pt(100)];
    let page =
        distribute(&mut composer, &mut work, &mut children, regions(pt(26), &backlog, None)).unwrap();
    assert_eq!(frames_of(&page.pieces), vec![]);
    assert_eq!(work.cursor, 1);

    let page =
        distribute(&mut composer, &mut work, &mut children, regions(pt(100), &[], None)).unwrap();
    assert_eq!(frames_of(&page.pieces), vec![(10, pt(0)), (11, pt(12)), (12, pt(24))]);
    assert_eq!(page.size, size(50, 34));
    assert!(work.done(children.len()));
}

#[test]
fn three_lines_fit_where_there_is_room() {
    let mut children = three_lines();
    let mut composer = script();
    let mut work = Work::new();
    let backlog = [pt(100)];
    let page =
        distribute(&mut composer, &mut work, &mut children, regions(pt(34), &backlog, None)).unwrap();
    assert_eq!(frames_of(&page.pieces), vec![(10, pt(0)), (11, pt(12)), (12, pt(24))]);
}

#[test]
fn the_first_line_is_not_left_alone() {
    let lines =
        vec![frame(10, 50, 10), frame(11, 50, 10), frame(12, 50, 10), frame(13, 50, 10)];
    let backlog = [pt(100)];
    let mut distributor = Distributor::new(regions(pt(15), &backlog, None));
    let mut work = Work::new();
    let mut composer = script();
    let r = distributor.process_par_lines(
        &mut composer,
        &mut work,
        lines,
        start(),
        pt(2),
        costs(1, 1),
        Rel::from_abs(pt(0)),
        false,
        None,
        0,
    );
    assert_eq!(r, Err(Stop::Finish(false)));
    assert_eq!(distributor.items.len(), 0);
    let spill = work.par_spill.unwrap();
    assert_eq!(spill.lines_placed, 0);
    assert_eq!(spill.frames.len(), 4);
}

#[test]
fn the_last_line_is_not_left_alone() {
    let lines =
        vec![frame(10, 50, 10), frame(11, 50, 10), frame(12, 50, 10), frame(13, 50, 10)];
    let backlog = [pt(100)];
    let mut distributor = Distributor::new(regions(pt(40), &backlog, None));
    let mut work = Work::new();
    let mut composer = script();
    let r = distributor.process_par_lines(
        &mut composer,
        &mut work,
        lines,
        start(),
        pt(2),
        costs(1, 1),
        Rel::from_abs(pt(3)),
        true,
        Some(5),
        0,
    );
    assert_eq!(r, Err(Stop::Finish(false)));
    let spill = work.par_spill.unwrap();
    assert_eq!(spill.lines_placed, 2);
    assert_eq!(spill.frames.len(), 2);
    assert_eq!(spill.frames[0].id, 12);
    assert_eq!(spill.par, Some(5));
    assert_eq!(spill.leading, pt(2));
    assert_eq!(work.cursor, 1);
    assert_eq!(distributor.items.len(), 4);
    assert_eq!(distributor.regions.size.y, pt(40 - 10 - 2 - 10 - 2));
}

#[test]
fn lines_are_followed_by_the_spacing_below() {
    let lines = vec![frame(10, 50, 10), frame(11, 50, 10)];
    let mut distributor = Distributor::new(regions(pt(100), &[], None));
    let mut work = Work::new();
    let mut composer = script();
    let r = distributor.process_par_lines(
        &mut composer,
        &mut work,
        lines,
        start(),
        pt(2),
        costs(0, 0),
        Rel::from_abs(pt(3)),
        true,
        None,
        0,
    );
    assert_eq!(r, Ok(()));
    assert_eq!(abs_items(&distributor.items), vec![(pt(2), 5), (pt(3), 4)]);
    assert_eq!(distributor.items.len(), 4);
    assert!(work.par_spill.is_none());
    assert_eq!(work.cursor, 0);
}

#[test]
fn sticky_block_migrates() {
    let mut children = vec![single(1, true), single(2, false)];
    let mut composer = script();
    composer.blocks = vec![(1, frame(1, 50, 10)), (2, frame(2, 50, 100))];
    let mut work = Work::new();
    let backlog = [pt(1000)];
    let page =
        distribute(&mut composer, &mut work, &mut children, regions(pt(50), &backlog, None)).unwrap();
    assert_eq!(frames_of(&page.pieces), vec![]);
    assert_eq!(work.cursor, 0);

    let page =
        distribute(&mut composer, &mut work, &mut children, regions(pt(1000), &[], None)).unwrap();
    assert_eq!(frames_of(&page.pieces), vec![(1, pt(0)), (2, pt(10))]);
    assert!(work.done(children.len()));
}

#[test]
fn sticky_block_stays_behind_prior_content() {
    let mut children = vec![single(3, false), single(1, true), single(2, false)];
    let mut composer = script();
    composer.blocks =
        vec![(3, frame(3, 50, 5)), (1, frame(1, 50, 10)), (2, frame(2, 50, 100))];
    let mut work = Work::new();
    let backlog = [pt(1000)];
    let page =
        distribute(&mut composer, &mut work, &mut children, regions(pt(50), &backlog, None)).unwrap();
    assert_eq!(frames_of(&page.pieces), vec![(3, pt(0))]);
    assert_eq!(work.cursor, 1);
}

#[test]
fn sticky_block_at_the_top_of_the_last_region_stays() {
    let mut children = vec![single(1, true), single(2, false)];
    let mut composer = script();
    composer.blocks = vec![(1, frame(1, 50, 10)), (2, frame(2, 50, 100))];
    let mut work = Work::new();
    let page = distribute(
        &mut composer,
        &mut work,
        &mut children,
        regions(pt(50), &[], Some(pt(50))),
    )
    .unwrap();
    assert_eq!(frames_of(&page.pieces), vec![(1, pt(0))]);
    assert_eq!(work.cursor, 1);
}

#[test]
fn a_sticky_group_moves_as_one() {
    let backlog = [pt(80)];
    let mut distributor = Distributor::new(regions(pt(50), &backlog, None));
    let mut work = Work::new();
    let mut composer = script();
    work.cursor = 3;
    assert_eq!(distributor.frame(&mut composer, &mut work, frame(1, 9, 10), start(), true, false), Ok(()));
    work.cursor = 4;
    assert_eq!(distributor.frame(&mut composer, &mut work, frame(2, 9, 10), start(), true, false), Ok(()));
    assert_eq!(distributor.stickable, Some(true));
    let snapshot = distributor.sticky.as_ref().unwrap();
    assert_eq!(snapshot.items, 0);
    assert_eq!(snapshot.work.cursor, 3);
    assert_eq!(distributor.frame(&mut composer, &mut work, frame(3, 9, 10), start(), false, false), Ok(()));
    assert!(distributor.sticky.is_none());
    assert_eq!(distributor.stickable, None);
    let empty = Frame::new(4, size(0, 0), FrameContent::Empty);
    assert_eq!(distributor.frame(&mut composer, &mut work, frame(5, 9, 10), start(), true, false), Ok(()));
    assert_eq!(distributor.frame(&mut composer, &mut work, empty, start(), false, false), Ok(()));
    assert_eq!(distributor.sticky.as_ref().unwrap().items, 3);
    let init = Distributor::new(regions(pt(50), &[], None)).snapshot(&Work::new());
    distributor.settle(&mut work, init, false);
    assert_eq!(distributor.items.len(), 3);
    assert_eq!(work.cursor, 4);
}

#[test]
fn a_forced_end_keeps_sticky_blocks() {
    let backlog = [pt(80)];
    let mut distributor = Distributor::new(regions(pt(50), &backlog, None));
    let mut work = Work::new();
    let mut composer = script();
    assert_eq!(distributor.frame(&mut composer, &mut work, frame(1, 9, 10), start(), true, false), Ok(()));
    distributor.tag(&mut work, Tag { id: 3 });
    let init = Distributor::new(regions(pt(50), &[], None)).snapshot(&Work::new());
    distributor.settle(&mut work, init, true);
    assert_eq!(distributor.items.len(), 2);
    assert_eq!(work.tags.len(), 0);
}

#[test]
fn a_region_of_markers_is_emptied() {
    let backlog = [pt(80)];
    let mut distributor = Distributor::new(regions(pt(50), &backlog, None));
    let mut work = Work::new();
    let mut composer = script();
    let init = distributor.snapshot(&work);
    distributor.tag(&mut work, Tag { id: 3 });
    let marker = Frame::new(4, size(0, 0), FrameContent::Markers);
    assert_eq!(distributor.frame(&mut composer, &mut work, marker, start(), false, false), Ok(()));
    work.cursor = 2;
    assert!(distributor.all_migratable());
    distributor.settle(&mut work, init, false);
    assert_eq!(distributor.items.len(), 0);
    assert_eq!(work.cursor, 0);
    assert_eq!(work.tags.len(), 0);
}

#[test]
fn migratable_items() {
    let placing = Placing {
        align_x: FixedAlignment::Start,
        align_y: Smart::Auto,
        delta: Axes::new(Rel::zero(), Rel::zero()),
        float: false,
    };
    assert!(Item::Tag(Tag { id: 1 }).migratable());
    assert!(Item::Placed(frame(1, 5, 5), placing).migratable());
    assert!(!Item::Placed(frame(1, 5, 5), Placing { float: true, ..placing }).migratable());
    assert!(!Item::Abs(pt(0), 0).migratable());
    assert!(!Item::Fr(Fr::one(), 0, None).migratable());
    assert!(!Item::Frame(frame(1, 0, 0), start()).migratable());
    assert!(!Item::Frame(Frame::new(1, size(0, 1), FrameContent::Markers), start()).migratable());
    assert!(Item::Frame(Frame::new(1, size(0, 0), FrameContent::Markers), start()).migratable());
    assert!(Item::Frame(Frame::new(1, size(0, 0), FrameContent::Empty), start()).migratable());
}

fn par_child(id: u64) -> Child {
    Child::Par(Box::new(ParChild {
        elem: par_elem(id),
        locator: Locator { base: 0, index: id },
        situation: ParSituation::First,
        base: size(200, 100),
        expand: false,
        spacing: Rel::from_abs(pt(0)),
        leading: pt(0),
        align: start(),
        costs: costs(0, 0),
    }))
}

fn numbered(from: u64, to: u64, width: i64) -> Vec<Frame> {
    (from..to).map(|id| frame(id, width, 10)).collect()
}

#[test]
fn par_spill_with_cutout_dropout() {
    let mut children = vec![par_child(1)];
    let mut composer = script();
    composer.cutouts = vec![RegionCutout::new(pt(0), pt(40), CutoutSide::End, pt(80), pt(20))];
    composer.lines_beside_cutouts = numbered(100, 110, 100);
    composer.lines = numbered(200, 208, 200);
    let mut work = Work::new();
    let backlog = [pt(100)];
    let page =
        distribute(&mut composer, &mut work, &mut children, regions(pt(40), &backlog, None)).unwrap();
    assert_eq!(
        frames_of(&page.pieces),
        vec![(100, pt(0)), (101, pt(10)), (102, pt(20)), (103, pt(30))]
    );
    assert_eq!(composer.seen_y_offset, Some(pt(0)));
    {
        let spill = work.par_spill.as_ref().unwrap();
        assert!(spill.lines_placed >= 4);
        assert_eq!(spill.lines_placed, 4);
        assert_eq!(spill.frames.len(), 6);
        assert_eq!(spill.par, Some(0));
    }
    assert_eq!(work.cursor, 1);

    composer.cutouts = vec![];
    let page =
        distribute(&mut composer, &mut work, &mut children, regions(pt(100), &[], None)).unwrap();
    assert_eq!(
        frames_of(&page.pieces),
        vec![(204, pt(0)), (205, pt(10)), (206, pt(20)), (207, pt(30))]
    );
    assert!(work.par_spill.is_none());
    assert!(work.done(children.len()));
}

#[test]
fn par_spill_beside_cutouts_keeps_its_lines() {
    let mut children = vec![par_child(1)];
    let mut composer = script();
    composer.cutouts = vec![RegionCutout::new(pt(0), pt(400), CutoutSide::End, pt(80), pt(20))];
    composer.lines_beside_cutouts = numbered(100, 110, 100);
    composer.lines = numbered(200, 208, 200);
    let mut work = Work::new();
    let backlog = [pt(30), pt(100)];
    let page =
        distribute(&mut composer, &mut work, &mut children, regions(pt(40), &backlog, None)).unwrap();
    assert_eq!(frames_of(&page.pieces).len(), 4);
    let page = distribute(
        &mut composer,
        &mut work,
        &mut children,
        regions(pt(30), &backlog[1..], None),
    )
    .unwrap();
    assert_eq!(frames_of(&page.pieces), vec![(104, pt(0)), (105, pt(10)), (106, pt(20))]);
    assert_eq!(work.par_spill.as_ref().unwrap().lines_placed, 7);
    assert_eq!(work.par_spill.as_ref().unwrap().par, Some(0));
    let page =
        distribute(&mut composer, &mut work, &mut children, regions(pt(100), &[], None)).unwrap();
    assert_eq!(frames_of(&page.pieces), vec![(107, pt(0)), (108, pt(10)), (109, pt(20))]);
    assert!(work.done(children.len()));
    assert_eq!(composer.par_calls, 1);
}

#[test]
fn a_paragraph_without_cutouts_spills_without_its_child() {
    let mut children = vec![par_child(1)];
    let mut composer = script();
    composer.lines = numbered(200, 206, 200);
    let mut work = Work::new();
    let backlog = [pt(100)];
    let page =
        distribute(&mut composer, &mut work, &mut children, regions(pt(25), &backlog, None)).unwrap();
    assert_eq!(frames_of(&page.pieces), vec![(200, pt(0)), (201, pt(10))]);
    let spill = work.par_spill.as_ref().unwrap();
    assert_eq!(spill.par, None);
    assert_eq!(spill.lines_placed, 2);
}

#[test]
fn a_spill_waits_in_a_full_region() {
    let children = vec![par_child(1)];
    let mut composer = script();
    let mut work = Work::new();
    let mut distributor = Distributor::new(regions(pt(0), &[], None));
    let spill = ParSpill {
        frames: numbered(1, 3, 10),
        align: start(),
        leading: pt(0),
        costs: costs(0, 0),
        spacing: Rel::zero(),
        par: None,
        lines_placed: 5,
    };
    let r = distributor.par_spill(&mut composer, &mut work, &children, spill);
    assert_eq!(r, Err(Stop::Finish(false)));
    assert_eq!(work.par_spill.unwrap().lines_placed, 5);
}

#[test]
fn an_error_of_the_engine_is_fatal() {
    let mut children = vec![single(1, false)];
    let mut composer = script();
    let mut work = Work::new();
    let r = distribute(&mut composer, &mut work, &mut children, regions(pt(40), &[], None));
    assert_eq!(
        r.unwrap_err(),
        Stop::Error(SourceError { span: Span { id: 1 }, kind: ErrorKind::Engine(7) })
    );
}

#[test]
fn a_relayout_surfaces() {
    let mut children = vec![single(1, false), single(2, false)];
    let mut composer = script();
    composer.blocks = vec![(1, frame(1, 50, 10)), (2, frame(2, 50, 10))];
    composer.stop_at_frame = Some((2, Stop::Relayout(PlacementScope::Parent)));
    let mut work = Work::new();
    let r = distribute(&mut composer, &mut work, &mut children, regions(pt(40), &[], None));
    assert_eq!(r.unwrap_err(), Stop::Relayout(PlacementScope::Parent));
}

#[test]
fn the_end_of_a_region_does_not_surface() {
    let mut children = vec![single(1, false), single(2, false)];
    let mut composer = script();
    composer.blocks = vec![(1, frame(1, 50, 10)), (2, frame(2, 50, 10))];
    composer.stop_at_frame = Some((2, Stop::Finish(false)));
    let mut work = Work::new();
    let page =
        distribute(&mut composer, &mut work, &mut children, regions(pt(40), &[], None)).unwrap();
    assert_eq!(frames_of(&page.pieces), vec![(1, pt(0))]);
    assert_eq!(work.cursor, 1);
}

#[test]
fn a_block_is_laid_out_once_for_a_region() {
    let mut composer = script();
    composer.blocks = vec![(1, frame(1, 50, 10))];
    let mut child = SingleChild {
        align: start(),
        sticky: false,
        alone: false,
        fr: None,
        elem: block_elem(1),
        locator: Locator { base: 0, index: 1 },
        cell: CachedCell::new(),
    };
    let region = Region::new(size(200, 100), Axes::new(true, true));
    assert_eq!(child.layout(&mut composer, region), Ok(frame(1, 50, 10)));
    composer.blocks = vec![(1, frame(1, 60, 20))];
    assert_eq!(child.layout(&mut composer, region), Ok(frame(1, 50, 10)));
    assert_eq!(composer.block_calls, 1);
    let other = Region::new(size(200, 101), Axes::new(true, true));
    assert_eq!(child.layout(&mut composer, other), Ok(frame(1, 60, 20)));
    assert_eq!(composer.block_calls, 2);
    assert_eq!(child.layout(&mut composer, region), Ok(frame(1, 60, 20)));
    assert_eq!(composer.block_calls, 3);
}

#[test]
fn a_cell_keeps_errors_too() {
    let mut composer = script();
    let mut child = SingleChild {
        align: start(),
        sticky: false,
        alone: false,
        fr: None,
        elem: block_elem(1),
        locator: Locator { base: 0, index: 1 },
        cell: CachedCell::new(),
    };
    let region = Region::new(size(200, 100), Axes::new(true, true));
    assert!(child.layout(&mut composer, region).is_err());
    composer.blocks = vec![(1, frame(1, 60, 20))];
    assert!(child.layout(&mut composer, region).is_err());
    assert_eq!(composer.block_calls, 1);
}

#[test]
fn cached_cell_is_idempotent() {
    let mut cell: CachedCell<u64> = CachedCell::new();
    let input = size(10, 20);
    assert_eq!(*cell.get_or_init(input, |_| 1), 1);
    assert_eq!(*cell.get_or_init(input, |_| 2), 1);
    assert_eq!(*cell.get_or_init(size(10, 20), |_| 3), 1);
    assert_eq!(*cell.get_or_init(size(10, 21), |_| 4), 4);
    assert_eq!(*cell.get_or_init(input, |_| 5), 5);
    let mut fresh: CachedCell<u64> = CachedCell::default();
    assert!(fresh.slot.is_none());
    assert_eq!(*fresh.get_or_init(input, |size| size.x.to_raw() as u64), 10 * 65536);
}

#[test]
fn cache_keys_tell_inputs_apart() {
    let a = CachedCell::<u64>::key_of(&size(10, 20));
    let b = CachedCell::<u64>::key_of(&size(20, 10));
    let c = CachedCell::<u64>::key_of(&size(10, 20));
    assert_eq!(a, c);
    assert_ne!(a, b);
    let region = Region::new(size(10, 20), Axes::new(false, true));
    let other = Region::new(size(10, 20), Axes::new(true, false));
    assert_ne!(CachedCell::<u64>::key_of(&region), CachedCell::<u64>::key_of(&other));
    assert_ne!(CachedCell::<u64>::key_of(&region), a);
    let backlog = [pt(1), pt(2)];
    let one = regions(pt(5), &backlog, None);
    let two = regions(pt(5), &backlog[..1], None);
    let three = regions(pt(5), &backlog[..1], Some(pt(2)));
    assert_ne!(CachedCell::<u64>::key_of(&one), CachedCell::<u64>::key_of(&two));
    assert_ne!(CachedCell::<u64>::key_of(&two), CachedCell::<u64>::key_of(&three));
    assert_eq!(
        CachedCell::<u64>::key_of(&one),
        CachedCell::<u64>::key_of(&regions(pt(5), &[pt(1), pt(2)], None))
    );
    assert_eq!(a, typst_utils::hash128(&{
        let mut bytes = (10i64 * 65536).to_le_bytes().to_vec();
        bytes.extend((20i64 * 65536).to_le_bytes());
        bytes
    }));
}

fn multi(id: u64) -> MultiChild {
    let mut elem = block_elem(id);
    elem.breakable = true;
    MultiChild {
        align: start(),
        sticky: false,
        alone: false,
        elem,
        locator: Locator { base: 0, index: id },
        cell: CachedCell::new(),
    }
}

#[test]
fn a_breakable_block_spills() {
    let mut composer = script();
    composer.fragment = vec![Frame::new(1, size(5, 0), FrameContent::Empty), frame(2, 50, 10)];
    let mut child = multi(1);
    let backlog = [pt(30), pt(40)];
    let (first, spill) =
        child.layout(&mut composer, regions(pt(20), &backlog, None), 3).unwrap();
    assert_eq!(first.id, 1);
    let spill = spill.unwrap();
    assert!(spill.exist_non_empty_frame);
    assert_eq!(spill.multi, 3);
    assert_eq!(spill.first, pt(20));
    assert_eq!(spill.full, pt(20));
    assert_eq!(spill.backlog, vec![]);
    assert_eq!(spill.min_backlog_len, 2);
    assert_eq!(spill.align(&child), start());

    composer.fragment = vec![frame(1, 50, 10)];
    let mut once = multi(2);
    let (first, spill) = once.layout(&mut composer, regions(pt(20), &backlog, None), 3).unwrap();
    assert_eq!(first.id, 1);
    assert!(spill.is_none());
}

#[test]
fn a_spilled_block_resumes() {
    let mut composer = script();
    composer.fragment = vec![frame(1, 50, 10), frame(2, 50, 10), frame(3, 50, 10)];
    let mut child = multi(1);
    let (first, spill) = child.layout(&mut composer, regions(pt(20), &[], Some(pt(30))), 0).unwrap();
    assert_eq!(first.id, 1);
    let spill = spill.unwrap();
    let (second, spill) =
        spill.layout(&mut composer, &mut child, regions(pt(30), &[], Some(pt(30)))).unwrap();
    assert_eq!(second.id, 2);
    let spill = spill.unwrap();
    assert_eq!(spill.backlog, vec![pt(30)]);
    assert_eq!(spill.min_backlog_len, 0);
    let (third, spill) =
        spill.layout(&mut composer, &mut child, regions(pt(30), &[], Some(pt(30)))).unwrap();
    assert_eq!(third.id, 3);
    assert!(spill.is_none());
}

#[test]
fn a_block_that_runs_short_is_an_error() {
    let mut composer = script();
    composer.fragment = vec![frame(1, 50, 10), frame(2, 50, 10)];
    let mut child = multi(1);
    let (_, spill) = child.layout(&mut composer, regions(pt(20), &[], Some(pt(30))), 0).unwrap();
    composer.fragment = vec![frame(1, 50, 10)];
    let r = spill.unwrap().layout(&mut composer, &mut child, regions(pt(31), &[], Some(pt(30))));
    assert_eq!(
        r.unwrap_err(),
        SourceError { span: Span { id: 1 }, kind: ErrorKind::MissingFrame }
    );
}

#[test]
fn the_backlog_of_a_spill_is_trimmed() {
    let mut spill = MultiSpill {
        exist_non_empty_frame: true,
        multi: 0,
        first: pt(10),
        full: pt(10),
        backlog: vec![pt(20)],
        min_backlog_len: 2,
    };
    let backlog = [pt(30), pt(30), pt(30)];
    let merged = spill.commit(&regions(pt(25), &backlog, Some(pt(30))));
    assert_eq!(spill.backlog, vec![pt(20), pt(25)]);
    assert_eq!(merged, vec![pt(20), pt(25)]);

    let backlog = [pt(30), pt(31), pt(30)];
    let merged = spill.commit(&regions(pt(26), &backlog, Some(pt(30))));
    assert_eq!(merged, vec![pt(20), pt(25), pt(26), pt(30), pt(31)]);
    let fragment = Fragment::frames(frame(0, 1, 1), numbered(1, 5, 1));
    let (next, rest) = spill.resume(&fragment, merged.len(), Span { id: 0 }).unwrap();
    assert_eq!(next.id, 3);
    assert_eq!(rest.unwrap().min_backlog_len, 5);
}

#[test]
fn a_breakable_block_goes_on_in_the_next_region() {
    let mut children = vec![
        Child::Rel(Rel::from_abs(pt(5)), 0),
        Child::Multi(Box::new(multi(1))),
        Child::Rel(Rel::from_abs(pt(3)), 0),
    ];
    let mut composer = script();
    composer.fragment = vec![frame(1, 50, 15), frame(2, 60, 10)];
    let mut work = Work::new();
    let page = distribute(
        &mut composer,
        &mut work,
        &mut children,
        regions(pt(20), &[], Some(pt(30))),
    )
    .unwrap();
    assert_eq!(frames_of(&page.pieces), vec![(1, pt(5))]);
    assert_eq!(work.cursor, 2);
    assert_eq!(work.spill.as_ref().unwrap().multi, 1);
    let page = distribute(
        &mut composer,
        &mut work,
        &mut children,
        regions(pt(30), &[], Some(pt(30))),
    )
    .unwrap();
    assert_eq!(frames_of(&page.pieces), vec![(2, pt(0))]);
    assert_eq!(page.size, size(60, 13));
    assert!(work.done(children.len()));
    assert_eq!(children[1].kind(), ChildKind::Multi);
}

#[test]
fn an_invisible_first_frame_moves_on() {
    let mut children = vec![Child::Multi(Box::new(multi(1)))];
    let mut composer = script();
    composer.fragment = vec![Frame::new(1, size(50, 0), FrameContent::Empty), frame(2, 60, 10)];
    let mut work = Work::new();
    let backlog = [pt(30)];
    let page =
        distribute(&mut composer, &mut work, &mut children, regions(pt(20), &backlog, None)).unwrap();
    assert_eq!(frames_of(&page.pieces), vec![]);
    assert_eq!(work.cursor, 0);
    assert!(work.spill.is_none());
}

#[test]
fn a_full_region_takes_no_breakable_block() {
    let mut distributor = Distributor::new(regions(pt(0), &[], None));
    let mut work = Work::new();
    let mut composer = script();
    let mut child = multi(1);
    assert_eq!(
        distributor.multi(&mut composer, &mut work, &mut child, 0),
        Err(Stop::Finish(false))
    );
    assert_eq!(composer.block_calls, 0);
}

#[test]
fn column_breaks() {
    let mut distributor = Distributor::new(regions(pt(50), &[], None));
    let mut work = Work::new();
    assert_eq!(distributor.break_(&mut work, false), Ok(()));
    assert_eq!(work.cursor, 0);

    let backlog = [pt(50)];
    let mut distributor = Distributor::new(regions(pt(50), &backlog, None));
    assert_eq!(distributor.break_(&mut work, true), Ok(()));
    assert_eq!(work.cursor, 0);
    assert_eq!(distributor.break_(&mut work, false), Err(Stop::Finish(true)));
    assert_eq!(work.cursor, 1);

    let (mut distributor, mut work) = with_frame(50, &backlog);
    assert_eq!(distributor.break_(&mut work, true), Err(Stop::Finish(true)));
    assert_eq!(work.cursor, 1);

    let mut distributor = Distributor::new(regions(pt(50), &[], Some(pt(50))));
    assert_eq!(distributor.break_(&mut work, false), Err(Stop::Finish(true)));
}

#[test]
fn a_column_break_ends_the_region_by_force() {
    let mut children = vec![single(1, true), Child::Break(false), single(2, false)];
    let mut composer = script();
    composer.blocks = vec![(1, frame(1, 50, 10)), (2, frame(2, 50, 10))];
    let mut work = Work::new();
    work.tags.push(Tag { id: 8 });
    let backlog = [pt(50)];
    let page =
        distribute(&mut composer, &mut work, &mut children, regions(pt(50), &backlog, None)).unwrap();
    assert_eq!(frames_of(&page.pieces), vec![(1, pt(0))]);
    assert_eq!(page.pieces.len(), 2);
    assert_eq!(work.cursor, 2);
}

#[test]
fn a_flush_ends_the_region_while_floats_wait() {
    let mut distributor = Distributor::new(regions(pt(50), &[], None));
    let mut work = Work::new();
    assert_eq!(distributor.flush(&work), Ok(()));
    work.floats.push(3);
    assert_eq!(distributor.flush(&work), Err(Stop::Finish(false)));
}

fn placed(float: bool) -> PlacedChild {
    PlacedChild {
        align_x: FixedAlignment::End,
        align_y: Smart::Custom(Some(FixedAlignment::End)),
        scope: PlacementScope::Column,
        float,
        clearance: pt(0),
        delta: Axes::new(Rel::from_abs(pt(1)), Rel::new(Ratio::raw(65536 / 10), pt(0))),
        elem: flowcore::elements::PlaceElem {
            body: Content { id: 77 },
            alignment: Smart::Auto,
            scope: PlacementScope::Column,
            float,
            clearance: pt(0),
            dx: Rel::zero(),
            dy: Rel::zero(),
            dir: flowcore::geom::Dir::LTR,
            span: Span { id: 77 },
            location: Some(Location { id: 5 }),
        },
        locator: Locator { base: 0, index: 1 },
        alignment: Smart::Auto,
        cell: CachedCell::new(),
    }
}

#[test]
fn a_float_is_left_to_the_composer() {
    let (mut distributor, mut work) = with_frame(100, &[]);
    distributor.rel(Rel::from_abs(pt(12)), 4);
    let mut composer = script();
    composer.float_waits = true;
    let mut child = placed(true);
    assert_eq!(distributor.placed(&mut composer, &mut work, &mut child, 4), Ok(()));
    assert_eq!(composer.seen_regions_height, Some(pt(90)));
    assert_eq!(distributor.regions.size.y, pt(78));
    assert_eq!(work.floats, vec![4]);
    assert_eq!(distributor.items.len(), 2);
    composer.float_waits = false;
    assert_eq!(distributor.placed(&mut composer, &mut work, &mut child, 5), Ok(()));
    assert_eq!(work.floats, vec![4]);
}

#[test]
fn a_placed_frame_takes_no_height() {
    let (mut distributor, mut work) = with_frame(100, &[]);
    let mut composer = script();
    let mut child = placed(false);
    assert_eq!(distributor.placed(&mut composer, &mut work, &mut child, 4), Ok(()));
    assert_eq!(distributor.regions.size.y, pt(90));
    assert_eq!(distributor.items.len(), 2);
    assert_eq!(distributor.current_y(), pt(10));
    match distributor.items[1] {
        Item::Placed(frame, placing) => {
            assert_eq!(frame.id, 77);
            assert_eq!(frame.parent, None);
            assert_eq!(placing.align_x, FixedAlignment::End);
        }
        _ => panic!("the second item is the placed frame"),
    }
}

#[test]
fn a_floating_frame_belongs_to_its_element() {
    let mut composer = script();
    let mut child = placed(true);
    let laid_out = child.layout(&mut composer, size(100, 100)).unwrap();
    assert_eq!(laid_out.parent, Some(Location { id: 5 }));
    assert_eq!(child.location(), Location { id: 5 });
    let mut child = placed(false);
    let laid_out = child.layout(&mut composer, size(100, 100)).unwrap();
    assert_eq!(laid_out.parent, None);
}

#[test]
fn wraps_and_mastheads_are_left_to_the_composer() {
    let (mut distributor, _work) = with_frame(100, &[]);
    distributor.rel(Rel::from_abs(pt(5)), 0);
    distributor.rel(Rel::from_abs(pt(12)), 4);
    let mut composer = script();
    let elem = flowcore::wrap::WrapElem {
        side: flowcore::geom::OuterHAlignment::Left,
        body: Content { id: 3 },
        clearance: pt(4),
        scope: PlacementScope::Column,
        dir: flowcore::geom::Dir::RTL,
        span: Span { id: 3 },
        location: Some(Location { id: 3 }),
    };
    assert_eq!(elem.cutout_side(elem.dir), CutoutSide::End);
    let mut wrap = WrapChild {
        side: CutoutSide::End,
        scope: PlacementScope::Column,
        clearance: pt(4),
        elem,
        locator: Locator { base: 0, index: 1 },
        cell: CachedCell::new(),
    };
    assert_eq!(distributor.wrap(&mut composer, &mut wrap), Ok(()));
    assert_eq!(composer.seen_y_offset, Some(pt(27)));
    assert_eq!(composer.seen_regions_height, Some(pt(85)));
    assert_eq!(distributor.regions.size.y, pt(73));
    let laid_out = wrap.layout(&mut composer, size(100, 100)).unwrap();
    assert_eq!(laid_out.parent, Some(Location { id: 3 }));
    assert_eq!(wrap.location(), Location { id: 3 });

    let elem = flowcore::masthead::MastheadElem {
        side: flowcore::geom::OuterHAlignment::Start,
        width: pt(60),
        body: Content { id: 4 },
        clearance: pt(4),
        scope: PlacementScope::Column,
        overflow: flowcore::masthead::MastheadOverflow::default(),
        dir: flowcore::geom::Dir::LTR,
        span: Span { id: 4 },
        location: Some(Location { id: 4 }),
    };
    assert_eq!(elem.overflow, flowcore::masthead::MastheadOverflow::Clip);
    assert_eq!(elem.cutout_side(elem.dir), CutoutSide::Start);
    let mut masthead = MastheadChild {
        side: CutoutSide::Start,
        scope: PlacementScope::Column,
        clearance: pt(4),
        width: pt(60),
        elem,
        locator: Locator { base: 0, index: 2 },
        cell: CachedCell::new(),
    };
    assert_eq!(
        distributor.masthead(&mut composer, &mut masthead),
        Err(Stop::Relayout(PlacementScope::Column))
    );
    assert_eq!(masthead.body_base(size(100, 7)), size(60, 7));
    let laid_out = masthead.layout(&mut composer, size(100, 7)).unwrap();
    assert_eq!(laid_out.size, size(30, 7));
    assert_eq!(masthead.location(), Location { id: 4 });
}

#[test]
fn a_block_of_fractional_height_fills_the_region() {
    let mut block = SingleChild {
        align: Axes::new(FixedAlignment::Center, FixedAlignment::Start),
        sticky: false,
        alone: true,
        fr: Some(Fr::raw(3)),
        elem: block_elem(1),
        locator: Locator { base: 0, index: 1 },
        cell: CachedCell::new(),
    };
    block.elem.height = Some(Fr::raw(3));
    let mut children = vec![
        single(2, false),
        Child::Fr(Fr::raw(1), 0),
        Child::Single(Box::new(block)),
    ];
    let mut composer = script();
    composer.blocks = vec![(1, frame(1, 40, 60)), (2, frame(2, 50, 20))];
    let mut work = Work::new();
    let mut region = regions(pt(100), &[], None);
    region.expand = Axes::new(true, false);
    let page = distribute(&mut composer, &mut work, &mut children, region).unwrap();
    assert_eq!(page.size, size(200, 100));
    assert_eq!(frames_of(&page.pieces), vec![(2, pt(0)), (1, pt(40))]);
    assert_eq!(page.pieces[1].pos.x, pt(80));
    assert_eq!(composer.seen_regions_height, Some(pt(60)));
    assert_eq!(composer.block_calls, 3);
}

#[test]
fn measuring() {
    let items = vec![
        Item::Abs(pt(5), 0),
        Item::Frame(frame(1, 30, 10), start()),
        Item::Fr(Fr::raw(2), 0, None),
        Item::Tag(Tag { id: 1 }),
        Item::Frame(frame(2, 50, 12), start()),
        Item::Fr(Fr::raw(1), 0, Some(FrBlock { child: 0, align_x: FixedAlignment::Start })),
    ];
    let m = measure(&items);
    assert_eq!(m.frs, Fr::raw(3));
    assert_eq!(m.used, size(50, 27));
    assert!(m.has_fr_child);
    let region = Region::new(size(100, 87), Axes::new(false, false));
    assert_eq!(fr_space(&m, region), (pt(60), pt(87)));
    let endless = Region::new(Axes::new(pt(100), Abs::inf()), Axes::new(false, false));
    assert_eq!(fr_space(&m, endless), (pt(0), pt(27)));
    let m = measure(&items[..2].to_vec());
    assert_eq!(fr_space(&m, region), (pt(0), pt(15)));
    assert!(!m.has_fr_child);
    assert_eq!(widest(pt(40), &vec![frame(1, 30, 1), frame(2, 70, 1), frame(3, 50, 1)]), pt(70));
    assert_eq!(widest(pt(40), &vec![]), pt(40));
}

#[test]
fn arranging() {
    let placing = Placing {
        align_x: FixedAlignment::End,
        align_y: Smart::Custom(Some(FixedAlignment::End)),
        delta: Axes::new(Rel::from_abs(pt(1)), Rel::new(Ratio::raw(65536 / 8), pt(0))),
        float: false,
    };
    let items = vec![
        Item::Tag(Tag { id: 1 }),
        Item::Abs(pt(5), 0),
        Item::Frame(frame(1, 30, 10), Axes::new(FixedAlignment::End, FixedAlignment::Center)),
        Item::Tag(Tag { id: 2 }),
        Item::Fr(Fr::raw(1), 0, None),
        Item::Frame(frame(2, 50, 12), Axes::new(FixedAlignment::Center, FixedAlignment::Start)),
        Item::Placed(frame(3, 20, 20), placing),
        Item::Placed(frame(4, 20, 20), Placing { align_y: Smart::Auto, ..placing }),
        Item::Fr(Fr::raw(3), 0, Some(FrBlock { child: 0, align_x: FixedAlignment::End })),
        Item::Frame(frame(5, 10, 1), Axes::new(FixedAlignment::Start, FixedAlignment::End)),
    ];
    let sheet = Sheet { size: size(100, 100), free: pt(20), frs: Fr::raw(4), fr_space: pt(40) };
    let page = arrange(&items, &vec![frame(9, 40, 30)], sheet);
    assert_eq!(page.size, size(100, 100));
    let found: Vec<(Abs, Abs)> = page.pieces.iter().map(|p| (p.pos.x, p.pos.y)).collect();
    assert_eq!(
        found,
        vec![
            (pt(0), pt(0)),
            (pt(70), pt(5 + 10)),
            (pt(0), pt(15 + 10)),
            (pt(25), pt(25 + 10)),
            (pt(80 + 1), Abs::raw(925 * 65536 / 10)),
            (pt(80 + 1), Abs::raw(595 * 65536 / 10)),
            (pt(60), pt(37)),
            (pt(0), pt(67 + 20)),
        ]
    );
    assert!(matches!(page.pieces[0].piece, Piece::Tag(Tag { id: 1 })));
    assert!(matches!(page.pieces[6].piece, Piece::Frame(Frame { id: 9, .. })));
}

#[test]
fn the_frame_of_a_region_is_no_larger_than_the_region() {
    let mut children = vec![single(1, false)];
    let mut composer = script();
    composer.blocks = vec![(1, frame(1, 500, 40))];
    let mut work = Work::new();
    let page =
        distribute(&mut composer, &mut work, &mut children, regions(pt(30), &[], None)).unwrap();
    assert_eq!(page.size, size(200, 30));
    composer.insertion = pt(120);
    composer.blocks = vec![(1, frame(1, 50, 10))];
    let mut children = vec![single(1, false)];
    let mut work = Work::new();
    let page =
        distribute(&mut composer, &mut work, &mut children, regions(pt(30), &[], None)).unwrap();
    assert_eq!(page.size, size(120, 10));
}

#[test]
fn a_stop_at_the_frame_after_a_sticky_block_leaves_the_block_behind() {
    let mut children = vec![single(1, true), single(2, false)];
    let mut composer = script();
    composer.blocks = vec![(1, frame(1, 50, 10)), (2, frame(2, 50, 10))];
    composer.stop_at_frame = Some((2, Stop::Finish(false)));
    let mut work = Work::new();
    let backlog = [pt(1000)];
    let page =
        distribute(&mut composer, &mut work, &mut children, regions(pt(50), &backlog, None)).unwrap();
    assert_eq!(frames_of(&page.pieces), vec![(1, pt(0))]);
    assert_eq!(work.cursor, 1);
}

#[test]
fn children_are_taken_by_their_kind() {
    let mut children = vec![
        Child::Tag(Tag { id: 4 }),
        Child::Rel(Rel::from_abs(pt(5)), 0),
        Child::Line(Box::new(LineChild { frame: frame(1, 50, 10), align: start(), need: pt(10) })),
        Child::Fr(Fr::one(), 0),
        Child::Flush,
        Child::Break(true),
    ];
    let mut composer = script();
    let mut work = Work::new();
    let mut distributor = Distributor::new(regions(pt(100), &[], Some(pt(100))));
    for index in 0..5 {
        work.cursor = index;
        assert_eq!(distributor.child(&mut composer, &mut work, &mut children, index), Ok(()));
        assert_eq!(work.cursor, index);
    }
    assert_eq!(distributor.items.len(), 4);
    assert!(matches!(distributor.items[0], Item::Abs(_, 0)));
    assert!(matches!(distributor.items[1], Item::Tag(Tag { id: 4 })));
    assert!(matches!(distributor.items[2], Item::Frame(_, _)));
    assert!(matches!(distributor.items[3], Item::Fr(_, 0, None)));
    work.cursor = 5;
    assert_eq!(
        distributor.child(&mut composer, &mut work, &mut children, 5),
        Err(Stop::Finish(true))
    );
    assert_eq!(work.cursor, 6);
}

#[test]
fn a_run_takes_spills_first() {
    let mut children = vec![par_child(1), single(2, false)];
    let mut composer = script();
    composer.blocks = vec![(2, frame(2, 50, 10))];
    let mut work = Work::new();
    work.cursor = 1;
    work.par_spill = Some(ParSpill {
        frames: numbered(10, 12, 50),
        align: start(),
        leading: pt(1),
        costs: costs(0, 0),
        spacing: Rel::from_abs(pt(4)),
        par: None,
        lines_placed: 3,
    });
    let mut distributor = Distributor::new(regions(pt(100), &[], None));
    assert_eq!(distributor.run(&mut composer, &mut work, &mut children), Ok(()));
    assert!(work.par_spill.is_none());
    assert_eq!(work.cursor, 2);
    let frames: Vec<u64> = distributor
        .items
        .iter()
        .filter_map(|item| match item {
            Item::Frame(frame, _) => Some(frame.id),
            _ => None,
        })
        .collect();
    assert_eq!(frames, vec![10, 11, 2]);
    assert_eq!(abs_items(&distributor.items), vec![(pt(1), 5), (pt(4), 4)]);
    assert_eq!(distributor.current_y(), pt(10 + 1 + 10 + 4 + 10));
}

#[test]
fn blocks_of_fractional_height_are_laid_out_into_their_shares() {
    let mut tall = SingleChild {
        align: start(),
        sticky: false,
        alone: false,
        fr: Some(Fr::raw(3)),
        elem: block_elem(1),
        locator: Locator { base: 0, index: 1 },
        cell: CachedCell::new(),
    };
    tall.elem.height = Some(Fr::raw(3));
    let mut children = vec![single(2, false), Child::Single(Box::new(tall))];
    let items = vec![
        Item::Frame(frame(9, 5, 5), start()),
        Item::Fr(Fr::raw(3), 0, Some(FrBlock { child: 1, align_x: FixedAlignment::Start })),
        Item::Fr(Fr::raw(1), 0, None),
        Item::Fr(Fr::raw(1), 0, Some(FrBlock { child: 0, align_x: FixedAlignment::End })),
    ];
    let mut composer = script();
    composer.blocks = vec![(1, frame(1, 40, 60)), (2, frame(2, 50, 20))];
    let region = Region::new(size(200, 100), Axes::new(true, false));
    let frames = flowcore::arrange::layout_fr_blocks(
        &items,
        &mut composer,
        &mut children,
        region,
        Fr::raw(5),
        pt(50),
    )
    .unwrap();
    assert_eq!(frames, vec![frame(1, 40, 60), frame(2, 50, 20)]);
    assert_eq!(composer.seen_regions_height, Some(pt(10)));
    assert_eq!(composer.block_calls, 2);
    assert_eq!(
        flowcore::arrange::share_region(region, Fr::raw(3), Fr::raw(5), pt(50)),
        Region::new(size(200, 30), Axes::new(true, false))
    );
    match &children[1] {
        Child::Single(tall) => assert_eq!(tall.cell.slot.as_ref().unwrap().value, Ok(frame(1, 40, 60))),
        _ => panic!("the second child is a block"),
    }
    composer.blocks = vec![(2, frame(2, 50, 20))];
    let mut fresh = vec![single(2, false), single(1, false)];
    let failed = flowcore::arrange::layout_fr_blocks(
        &items,
        &mut composer,
        &mut fresh,
        region,
        Fr::raw(5),
        pt(50),
    );
    assert_eq!(
        failed,
        Err(SourceError { span: Span { id: 1 }, kind: ErrorKind::Engine(7) })
    );
    let none = flowcore::arrange::layout_fr_blocks(
        &items[..1].to_vec(),
        &mut composer,
        &mut fresh,
        region,
        Fr::raw(5),
        pt(50),
    );
    assert_eq!(none, Ok(vec![]));
}

#[test]
fn a_spilled_paragraph_is_broken_again_where_no_cutout_is_left() {
    let children = vec![par_child(1)];
    let mut composer = script();
    composer.lines = numbered(200, 208, 200);
    let spill = || ParSpill {
        frames: numbered(104, 110, 100),
        align: start(),
        leading: pt(0),
        costs: costs(0, 0),
        spacing: Rel::zero(),
        par: Some(0),
        lines_placed: 4,
    };
    let frames = |distributor: &Distributor| -> Vec<u64> {
        distributor
            .items
            .iter()
            .filter_map(|item| match item {
                Item::Frame(frame, _) => Some(frame.id),
                _ => None,
            })
            .collect()
    };
    let backlog = [pt(100)];
    let mut work = Work::new();
    let mut distributor = Distributor::new(regions(pt(25), &backlog, None));
    let r = distributor.spill_lines(&mut composer, &mut work, &children, spill(), &[]);
    assert_eq!(r, Err(Stop::Finish(false)));
    assert_eq!(frames(&distributor), vec![204, 205]);
    assert_eq!(work.par_spill.as_ref().unwrap().lines_placed, 6);
    assert_eq!(work.par_spill.as_ref().unwrap().par, None);
    assert_eq!(work.par_spill.as_ref().unwrap().frames[0].id, 206);

    let cutout = RegionCutout::new(pt(0), pt(10), CutoutSide::End, pt(5), pt(5));
    let mut work = Work::new();
    let mut distributor = Distributor::new(regions(pt(25), &backlog, None));
    let r = distributor.spill_lines(&mut composer, &mut work, &children, spill(), &[cutout]);
    assert_eq!(r, Err(Stop::Finish(false)));
    assert_eq!(frames(&distributor), vec![104, 105]);
    assert_eq!(work.par_spill.as_ref().unwrap().lines_placed, 6);
    assert_eq!(work.par_spill.as_ref().unwrap().par, Some(0));

    let mut work = Work::new();
    let mut distributor = Distributor::new(regions(pt(100), &[], None));
    let r = distributor.spill_relaid(&mut composer, &mut work, spill(), numbered(300, 303, 10));
    assert_eq!(r, Ok(()));
    assert_eq!(frames(&distributor), Vec::<u64>::new());
    let r = distributor.spill_relaid(&mut composer, &mut work, spill(), numbered(300, 306, 10));
    assert_eq!(r, Ok(()));
    assert_eq!(frames(&distributor), vec![304, 305]);
}

#[test]
fn the_page_of_a_region() {
    let items = vec![
        Item::Frame(frame(1, 30, 10), start()),
        Item::Abs(pt(5), 0),
        Item::Frame(frame(2, 50, 12), start()),
    ];
    let region = Region::new(size(200, 100), Axes::new(false, false));
    let page = flowcore::arrange::page_of(&items, &vec![], region, pt(0));
    assert_eq!(page.size, size(50, 27));
    assert_eq!(frames_of(&page.pieces), vec![(1, pt(0)), (2, pt(15))]);
    let page = flowcore::arrange::page_of(&items, &vec![], region, pt(70));
    assert_eq!(page.size, size(70, 27));
    let page = flowcore::arrange::page_of(&items, &vec![], region, pt(700));
    assert_eq!(page.size, size(200, 27));
    let filled = Region::new(size(200, 100), Axes::new(true, true));
    let page = flowcore::arrange::page_of(&items, &vec![], filled, pt(70));
    assert_eq!(page.size, size(200, 100));
}

#[test]
fn the_regions_of_breakable_blocks() {
    let backlog = [pt(30)];
    let mut current = regions(pt(20), &backlog, Some(pt(40)));
    current.expand = Axes::new(true, true);
    let pod = flowcore::child::block_regions(current, false);
    assert_eq!(pod.expand, Axes::new(true, false));
    assert_eq!(pod.size, current.size);
    assert_eq!(pod.backlog, &backlog[..]);
    assert_eq!(flowcore::child::block_regions(current, true).expand, Axes::new(true, true));
    let spill = MultiSpill {
        exist_non_empty_frame: true,
        multi: 0,
        first: pt(7),
        full: pt(9),
        backlog: vec![pt(20)],
        min_backlog_len: 0,
    };
    let merged = [pt(20), pt(30)];
    let pod = spill.pod(&current, &merged);
    assert_eq!(pod.size, Axes::new(pt(200), pt(7)));
    assert_eq!(pod.full, pt(9));
    assert_eq!(pod.backlog, &merged[..]);
    assert_eq!(pod.last, Some(pt(40)));
    assert_eq!(pod.expand, Axes::new(true, true));
}

#[test]
fn a_cell_computes_once() {
    let mut cell: CachedCell<u64> = CachedCell::new();
    assert_eq!(*cell.get_or_compute(size(1, 2), |input| input.y.to_raw() as u64), 2 * 65536);
    assert_eq!(*cell.get_or_compute(size(1, 2), |_| 9), 2 * 65536);
    assert_eq!(*cell.get_or_compute(size(1, 3), |_| 9), 9);
}

#[test]
fn a_paragraph_laid_out_at_once_or_put_off_gives_the_same_page() {
    let elem = ParElem { spacing: pt(6), leading: pt(2), costs: costs(1, 1), ..par_elem(1) };
    let lines = vec![frame(1, 120, 10), frame(2, 90, 11), frame(3, 150, 12), frame(4, 40, 13)];
    let style = LineStyle { leading: pt(0), align: start(), costs: costs(0, 0) };
    let elements = [Element::Tag(Tag { id: 9 }), Element::Par(elem), Element::Tag(Tag { id: 8 })];

    let mut engine = script();
    engine.lines = lines.clone();
    let mut at_once = collect(
        &mut engine,
        &elements,
        Locator::new(0),
        size(200, 100),
        false,
        FlowMode::Block,
        style,
    )
    .unwrap();
    assert_eq!(at_once.len(), 2 + 2 + 4 + 3);
    assert!(at_once.iter().all(|child| !matches!(child, Child::Par(_))));
    let mut put_off = vec![
        Child::Tag(Tag { id: 9 }),
        Child::Par(Box::new(ParChild {
            elem,
            locator: Locator { base: 0, index: 1 },
            situation: ParSituation::First,
            base: size(200, 100),
            expand: false,
            spacing: Rel::from_abs(pt(6)),
            leading: pt(2),
            align: start(),
            costs: costs(1, 1),
        })),
        Child::Tag(Tag { id: 8 }),
    ];

    let mut first = script();
    let mut work = Work::new();
    let page = distribute(&mut first, &mut work, &mut at_once, regions(Abs::inf(), &[], None))
        .unwrap();
    assert_eq!(first.par_calls, 0);
    assert!(work.done(at_once.len()));

    let mut second = script();
    second.lines = lines;
    let mut work = Work::new();
    let other = distribute(&mut second, &mut work, &mut put_off, regions(Abs::inf(), &[], None))
        .unwrap();
    assert_eq!(second.par_calls, 1);
    assert!(work.done(put_off.len()));

    assert_eq!(page.size, other.size);
    assert_eq!(page.pieces, other.pieces);
    assert_eq!(page.size, size(150, 6 + 10 + 2 + 11 + 2 + 12 + 2 + 13));
    assert_eq!(
        frames_of(&page.pieces),
        vec![(1, pt(6)), (2, pt(18)), (3, pt(31)), (4, pt(45))]
    );
}

#[test]
fn a_flow_laid_out_at_once_or_put_off_gives_the_same_page() {
    let elem = ParElem { spacing: pt(6), leading: pt(2), costs: costs(1, 1), ..par_elem(1) };
    let lines = vec![frame(1, 120, 10), frame(2, 90, 11), frame(3, 150, 12), frame(4, 40, 13)];
    let style = LineStyle { leading: pt(0), align: start(), costs: costs(0, 0) };
    let elements = [
        Element::Tag(Tag { id: 9 }),
        Element::Par(elem),
        Element::Block(block_elem(5)),
        Element::Par(elem),
        Element::Tag(Tag { id: 8 }),
    ];
    let gather = |engine: &mut Script| {
        collect(engine, &elements, Locator::new(0), size(200, 100), false, FlowMode::Block, style)
            .unwrap()
    };
    let par_child = || {
        Child::Par(Box::new(ParChild {
            elem,
            locator: Locator { base: 0, index: 1 },
            situation: ParSituation::First,
            base: size(200, 100),
            expand: false,
            spacing: Rel::from_abs(pt(6)),
            leading: pt(2),
            align: start(),
            costs: costs(1, 1),
        }))
    };

    let mut engine = script();
    engine.lines = lines.clone();
    let mut at_once = gather(&mut engine);
    assert_eq!(at_once.len(), 1 + 9 + 3 + 9 + 1);
    assert!(at_once.iter().all(|child| !matches!(child, Child::Par(_))));
    assert!(matches!(at_once[11], Child::Single(_)));

    // The same children, with the children of each paragraph taken out
    // and the paragraph itself in their place.
    let mut rest = gather(&mut engine).into_iter();
    let mut put_off = vec![rest.next().unwrap(), par_child()];
    let mut rest = rest.skip(9);
    put_off.extend([rest.next().unwrap(), rest.next().unwrap(), rest.next().unwrap()]);
    put_off.push(par_child());
    let mut rest = rest.skip(9);
    put_off.push(rest.next().unwrap());
    assert!(rest.next().is_none());
    assert_eq!(put_off.len(), 7);

    let mut first = script();
    first.blocks = vec![(5, frame(5, 170, 30))];
    let mut work = Work::new();
    let page = distribute(&mut first, &mut work, &mut at_once, regions(Abs::inf(), &[], None))
        .unwrap();
    assert_eq!(first.par_calls, 0);
    assert!(work.done(at_once.len()));

    let mut second = script();
    second.lines = lines;
    second.blocks = vec![(5, frame(5, 170, 30))];
    let mut work = Work::new();
    let other = distribute(&mut second, &mut work, &mut put_off, regions(Abs::inf(), &[], None))
        .unwrap();
    assert_eq!(second.par_calls, 2);
    assert!(work.done(put_off.len()));

    assert_eq!(page.size, other.size);
    assert_eq!(page.pieces, other.pieces);
    let ids: Vec<u64> = frames_of(&page.pieces).iter().map(|found| found.0).collect();
    assert_eq!(ids, vec![1, 2, 3, 4, 5, 1, 2, 3, 4]);
    assert_eq!(frames_of(&page.pieces)[4], (5, pt(6 + 52 + 6)));
}

#[test]
fn a_float_that_has_to_wait_is_queued() {
    let mut work = Work::new();
    assert_eq!(float_answered(&mut work, 3, Ok(false)), Ok(()));
    assert!(work.floats.is_empty());
    assert_eq!(float_answered(&mut work, 3, Ok(true)), Ok(()));
    assert_eq!(float_answered(&mut work, 5, Ok(true)), Ok(()));
    assert_eq!(work.floats, vec![3, 5]);
    let stop = Stop::Relayout(PlacementScope::Column);
    assert_eq!(float_answered(&mut work, 7, Err(stop)), Err(stop));
    assert_eq!(work.floats, vec![3, 5]);
    assert_eq!(work.cursor, 0);
}
