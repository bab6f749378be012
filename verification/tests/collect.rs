use flowcore::abs::{Abs, Fr, Ratio, Rel};
use flowcore::child::Child;
use flowcore::collect::{collect, has_wraps, Collector};
use flowcore::cutout::CutoutSide;
use flowcore::diag::{ErrorKind, SourceError};
use flowcore::elements::{
    BlockElem, Costs, Element, FlowMode, LineStyle, ParElem, ParSituation, PlaceElem, Spacing,
    Stray, VElem,
};
use flowcore::engine::{Engine, Fragment, InlineContext, Locator, Warning};
use flowcore::frame::{Content, Frame, FrameContent, Location, Span, Tag};
use flowcore::geom::{
    Alignment, Axes, Dir, FixedAlignment, HAlignment, OuterHAlignment, PlacementScope, Region,
    Regions, Size, Smart, VAlignment,
};
use flowcore::masthead::{MastheadElem, MastheadOverflow};
use flowcore::wrap::WrapElem;

fn points(val: i64) -> Abs {
    Abs::pt(val)
}

fn line(id: u64, height: i64) -> Frame {
    Frame::new(id, Axes::new(points(50), points(height)), FrameContent::Visible)
}

fn top_left() -> Axes<FixedAlignment> {
    Axes::new(FixedAlignment::Start, FixedAlignment::Start)
}

fn style() -> LineStyle {
    LineStyle {
        leading: points(3),
        align: Axes::new(FixedAlignment::End, FixedAlignment::Start),
        costs: Costs { widow: Ratio::raw(1), orphan: Ratio::raw(1) },
    }
}

/// An engine that hands out the same lines for every paragraph.
struct Typist {
    lines: Vec<Frame>,
    fails: bool,
    asked: Vec<(u64, ParSituation, Locator)>,
    inline_len: Option<usize>,
    warnings: Vec<String>,
}

fn typist(lines: Vec<Frame>) -> Typist {
    Typist { lines, fails: false, asked: vec![], inline_len: None, warnings: vec![] }
}

impl Engine for Typist {
    fn layout_par(
        &mut self,
        elem: &ParElem,
        locator: Locator,
        _base: Size,
        _expand: bool,
        situation: ParSituation,
    ) -> Result<Vec<Frame>, SourceError> {
        self.asked.push((elem.body.id, situation, locator));
        if self.fails {
            Err(SourceError::new(elem.span, ErrorKind::Engine(3)))
        } else {
            Ok(self.lines.clone())
        }
    }

    fn layout_par_with_context(
        &mut self,
        _elem: &ParElem,
        _locator: Locator,
        _base: Size,
        _expand: bool,
        _situation: ParSituation,
        _context: Option<InlineContext<'_>>,
    ) -> Result<Vec<Frame>, SourceError> {
        Ok(self.lines.clone())
    }

    fn layout_inline(
        &mut self,
        children: &[Element],
        _locator: Locator,
        _base: Size,
        _expand: bool,
    ) -> Result<Vec<Frame>, SourceError> {
        self.inline_len = Some(children.len());
        if self.fails {
            Err(SourceError::new(Span { id: 0 }, ErrorKind::Engine(4)))
        } else {
            Ok(self.lines.clone())
        }
    }

    fn layout_single_block(
        &mut self,
        _elem: &BlockElem,
        _locator: Locator,
        region: Region,
    ) -> Result<Frame, SourceError> {
        Ok(Frame::new(0, region.size, FrameContent::Visible))
    }

    fn layout_multi_block(
        &mut self,
        _elem: &BlockElem,
        _locator: Locator,
        regions: Regions<'_>,
    ) -> Result<Fragment, SourceError> {
        Ok(Fragment::frame(Frame::new(0, regions.size, FrameContent::Visible)))
    }

    fn layout_frame(
        &mut self,
        body: Content,
        _locator: Locator,
        _align: Option<Alignment>,
        region: Region,
    ) -> Result<Frame, SourceError> {
        Ok(Frame::new(body.id, region.size, FrameContent::Visible))
    }

    fn warn(&mut self, warning: Warning) {
        self.warnings.push(warning.message());
    }
}

fn paragraph(id: u64) -> ParElem {
    ParElem {
        body: Content { id },
        spacing: points(12),
        leading: points(2),
        align: top_left(),
        costs: Costs { widow: Ratio::raw(1), orphan: Ratio::raw(1) },
        span: Span { id },
    }
}

fn block(id: u64) -> BlockElem {
    BlockElem {
        body: Content { id },
        above: Smart::Auto,
        below: Smart::Custom(Spacing::Rel(Rel::from_abs(points(3)))),
        par_spacing: points(7),
        sticky: true,
        breakable: true,
        height: None,
        align: top_left(),
        span: Span { id },
    }
}

fn place(float: bool, alignment: Smart<Alignment>, scope: PlacementScope) -> PlaceElem {
    PlaceElem {
        body: Content { id: 5 },
        alignment,
        scope,
        float,
        clearance: points(4),
        dx: Rel::from_abs(points(1)),
        dy: Rel::from_abs(points(2)),
        dir: Dir::RTL,
        span: Span { id: 50 },
        location: Some(Location { id: 5 }),
    }
}

fn wrap_elem() -> WrapElem {
    WrapElem {
        side: OuterHAlignment::Right,
        body: Content { id: 9 },
        clearance: points(6),
        scope: PlacementScope::Parent,
        dir: Dir::RTL,
        span: Span { id: 9 },
        location: None,
    }
}

fn gather(engine: &mut Typist, elements: &[Element]) -> Result<Vec<Child>, SourceError> {
    collect(
        engine,
        elements,
        Locator::new(40),
        Axes::new(points(200), points(300)),
        true,
        FlowMode::Root,
        style(),
    )
}

fn summary(children: &[Child]) -> Vec<String> {
    children
        .iter()
        .map(|child| match child {
            Child::Tag(tag) => format!("tag {}", tag.id),
            Child::Rel(rel, weakness) => format!("rel {} {}", rel.abs.to_raw() / 65536, weakness),
            Child::Fr(fr, weakness) => format!("fr {} {}", fr.raw, weakness),
            Child::Line(line) => format!("line {} {}", line.frame.id, line.need.to_raw() / 65536),
            Child::Par(par) => format!("par {} {}", par.elem.body.id, par.locator.index),
            Child::Single(single) => format!("single {} {}", single.elem.body.id, single.locator.index),
            Child::Multi(multi) => format!("multi {} {}", multi.elem.body.id, multi.locator.index),
            Child::Placed(placed) => format!("placed {} {}", placed.elem.body.id, placed.locator.index),
            Child::Wrap(wrap) => format!("wrap {} {}", wrap.elem.body.id, wrap.locator.index),
            Child::Masthead(masthead) => {
                format!("masthead {} {}", masthead.elem.body.id, masthead.locator.index)
            }
            Child::Flush => format!("flush"),
            Child::Break(weak) => format!("break {}", weak),
        })
        .collect()
}

#[test]
fn paragraphs_are_laid_out_at_once_without_wraps() {
    let mut engine = typist(vec![line(1, 10), line(2, 11), line(3, 12), line(4, 13)]);
    let elements = [
        Element::Par(paragraph(7)),
        Element::Par(paragraph(8)),
        Element::Block(block(9)),
        Element::Par(paragraph(10)),
    ];
    assert!(!has_wraps(&elements));
    let children = gather(&mut engine, &elements).unwrap();
    let lines = [
        "rel 12 4", "line 1 23", "rel 2 5", "line 2 11", "rel 2 5", "line 3 27", "rel 2 5",
        "line 4 13", "rel 12 4",
    ];
    let mut expected: Vec<&str> = vec![];
    expected.extend(lines);
    expected.extend(lines);
    expected.extend(["rel 7 4", "multi 9 3", "rel 3 3"]);
    expected.extend(lines);
    assert_eq!(summary(&children), expected);
    assert_eq!(
        engine.asked,
        vec![
            (7, ParSituation::First, Locator { base: 40, index: 1 }),
            (8, ParSituation::Consecutive, Locator { base: 40, index: 2 }),
            (10, ParSituation::Other, Locator { base: 40, index: 4 }),
        ]
    );
}

#[test]
fn paragraphs_wait_where_text_flows_around_something() {
    let mut engine = typist(vec![line(1, 10)]);
    let elements = [
        Element::Par(paragraph(7)),
        Element::Wrap(wrap_elem()),
        Element::Par(paragraph(8)),
        Element::Par(paragraph(9)),
    ];
    assert!(has_wraps(&elements));
    let children = gather(&mut engine, &elements).unwrap();
    assert_eq!(summary(&children), vec!["par 7 1", "wrap 9 2", "par 8 3", "par 9 4"]);
    assert!(engine.asked.is_empty());
    match &children[0] {
        Child::Par(par) => {
            assert_eq!(par.situation, ParSituation::First);
            assert_eq!(par.spacing, Rel::from_abs(points(12)));
            assert_eq!(par.leading, points(2));
            assert_eq!(par.base, Axes::new(points(200), points(300)));
            assert!(par.expand);
            assert_eq!(par.locator.base, 40);
        }
        _ => panic!("the first child is a paragraph"),
    }
    match (&children[2], &children[3]) {
        (Child::Par(after_wrap), Child::Par(next)) => {
            assert_eq!(after_wrap.situation, ParSituation::Other);
            assert_eq!(next.situation, ParSituation::Consecutive);
        }
        _ => panic!("the last two children are paragraphs"),
    }
    match &children[1] {
        Child::Wrap(wrap) => {
            assert_eq!(wrap.side, CutoutSide::Start);
            assert_eq!(wrap.clearance, points(6));
            assert_eq!(wrap.scope, PlacementScope::Parent);
            assert!(wrap.cell.slot.is_none());
        }
        _ => panic!("the second child is the wrap"),
    }
}

#[test]
fn a_masthead_defers_paragraphs_too() {
    let mut engine = typist(vec![line(1, 10)]);
    let masthead = MastheadElem {
        side: OuterHAlignment::Left,
        width: points(60),
        body: Content { id: 4 },
        clearance: points(8),
        scope: PlacementScope::Column,
        overflow: MastheadOverflow::Paginate,
        dir: Dir::LTR,
        span: Span { id: 4 },
        location: None,
    };
    let elements = [Element::Masthead(masthead), Element::Par(paragraph(8))];
    let children = gather(&mut engine, &elements).unwrap();
    assert_eq!(summary(&children), vec!["masthead 4 1", "par 8 2"]);
    match &children[0] {
        Child::Masthead(child) => {
            assert_eq!(child.side, CutoutSide::Start);
            assert_eq!(child.width, points(60));
            assert_eq!(child.clearance, points(8));
        }
        _ => panic!("the first child is the masthead"),
    }
}

#[test]
fn spacing_tags_flushes_and_breaks_pass_through() {
    let mut engine = typist(vec![]);
    let elements = [
        Element::Tag(Tag { id: 3 }),
        Element::V(VElem { amount: Spacing::Rel(Rel::from_abs(points(12))), weakness: 1 }),
        Element::V(VElem { amount: Spacing::Fr(Fr::raw(2)), weakness: 0 }),
        Element::V(VElem { amount: Spacing::Rel(Rel::from_abs(points(20))), weakness: 4 }),
        Element::Flush,
        Element::Colbreak(true),
        Element::Colbreak(false),
    ];
    let children = gather(&mut engine, &elements).unwrap();
    assert_eq!(
        summary(&children),
        vec!["tag 3", "rel 12 1", "fr 2 0", "rel 20 4", "flush", "break true", "break false"]
    );
}

#[test]
fn blocks_stand_between_their_spacing() {
    let mut engine = typist(vec![]);
    let mut unbreakable = block(1);
    unbreakable.breakable = false;
    unbreakable.above = Smart::Custom(Spacing::Fr(Fr::raw(5)));
    unbreakable.below = Smart::Auto;
    let mut fractional = block(2);
    fractional.height = Some(Fr::raw(9));
    let elements =
        [Element::Block(unbreakable), Element::Block(fractional), Element::Block(block(3))];
    let children = gather(&mut engine, &elements).unwrap();
    assert_eq!(
        summary(&children),
        vec![
            "fr 5 2", "single 1 1", "rel 7 4", "rel 7 4", "single 2 2", "rel 3 3", "rel 7 4",
            "multi 3 3", "rel 3 3"
        ]
    );
    match (&children[1], &children[4], &children[7]) {
        (Child::Single(first), Child::Single(second), Child::Multi(third)) => {
            assert!(first.sticky && !first.alone && first.fr.is_none());
            assert_eq!(second.fr, Some(Fr::raw(9)));
            assert!(third.sticky && !third.alone);
        }
        _ => panic!("the blocks are where they belong"),
    }
    let alone = gather(&mut engine, &[Element::Block(block(3))]).unwrap();
    match &alone[1] {
        Child::Multi(only) => assert!(only.alone),
        _ => panic!("the second child is the block"),
    }
}

#[test]
fn a_pagebreak_in_a_container_is_an_error() {
    let mut engine = typist(vec![line(1, 10)]);
    let elements = [
        Element::Other(Stray { name: "outline", span: Span { id: 1 } }),
        Element::Par(paragraph(7)),
        Element::Pagebreak(Span { id: 77 }),
        Element::Par(paragraph(8)),
    ];
    let error = gather(&mut engine, &elements).unwrap_err();
    assert_eq!(error, SourceError { span: Span { id: 77 }, kind: ErrorKind::PagebreakInContainer });
    assert_eq!(error.message(), Some("pagebreaks are not allowed inside of containers"));
    assert_eq!(error.hint(), Some("try using a `#colbreak()` instead"));
    assert_eq!(engine.asked.len(), 1);
    assert_eq!(engine.warnings, vec!["outline was ignored during paged export"]);
}

#[test]
fn an_error_of_the_engine_ends_the_collection() {
    let mut engine = typist(vec![line(1, 10)]);
    engine.fails = true;
    let elements = [Element::Par(paragraph(7)), Element::Pagebreak(Span { id: 77 })];
    let error = gather(&mut engine, &elements).unwrap_err();
    assert_eq!(error, SourceError { span: Span { id: 7 }, kind: ErrorKind::Engine(3) });
    assert_eq!(error.message(), None);
    assert_eq!(error.hint(), None);
}

#[test]
fn stray_elements_leave_a_warning() {
    let mut engine = typist(vec![]);
    let elements = [
        Element::Other(Stray { name: "outline", span: Span { id: 1 } }),
        Element::Flush,
        Element::Other(Stray { name: "bibliography", span: Span { id: 2 } }),
    ];
    let children = gather(&mut engine, &elements).unwrap();
    assert_eq!(summary(&children), vec!["flush"]);
    assert_eq!(
        engine.warnings,
        vec![
            "outline was ignored during paged export",
            "bibliography was ignored during paged export"
        ]
    );
    let warning = Warning { span: Span { id: 1 }, name: "table" };
    assert_eq!(warning.message(), "table was ignored during paged export");
}

#[test]
fn floats_align_to_the_top_or_the_bottom() {
    let mut engine = typist(vec![]);
    let centered = place(
        true,
        Smart::Custom(Alignment::Both(HAlignment::Left, VAlignment::Horizon)),
        PlacementScope::Column,
    );
    let error = gather(&mut engine, &[Element::Place(centered)]).unwrap_err();
    assert_eq!(error, SourceError { span: Span { id: 50 }, kind: ErrorKind::FloatAlignment });
    assert_eq!(
        error.message(),
        Some("vertical floating placement must be `auto`, `top`, or `bottom`")
    );
    assert_eq!(error.hint(), None);

    let sideways = place(true, Smart::Custom(Alignment::H(HAlignment::Left)), PlacementScope::Column);
    let error = gather(&mut engine, &[Element::Place(sideways)]).unwrap_err();
    assert_eq!(error.kind, ErrorKind::FloatAlignment);

    let top = place(true, Smart::Custom(Alignment::V(VAlignment::Top)), PlacementScope::Parent);
    let children = gather(&mut engine, &[Element::Place(top)]).unwrap();
    match &children[0] {
        Child::Placed(placed) => {
            assert_eq!(placed.align_x, FixedAlignment::End);
            assert_eq!(placed.align_y, Smart::Custom(Some(FixedAlignment::Start)));
            assert!(placed.float);
            assert_eq!(placed.scope, PlacementScope::Parent);
            assert_eq!(placed.clearance, points(4));
            assert_eq!(placed.delta, Axes::new(Rel::from_abs(points(1)), Rel::from_abs(points(2))));
            assert_eq!(placed.locator, Locator { base: 40, index: 1 });
        }
        _ => panic!("the child is the placed element"),
    }

    let auto = place(true, Smart::Auto, PlacementScope::Column);
    let children = gather(&mut engine, &[Element::Place(auto)]).unwrap();
    match &children[0] {
        Child::Placed(placed) => {
            assert_eq!(placed.align_x, FixedAlignment::Center);
            assert_eq!(placed.align_y, Smart::Auto);
        }
        _ => panic!("the child is the placed element"),
    }
}

#[test]
fn only_floats_are_placed_automatically() {
    let mut engine = typist(vec![]);
    let auto = place(false, Smart::Auto, PlacementScope::Parent);
    let error = gather(&mut engine, &[Element::Place(auto)]).unwrap_err();
    assert_eq!(error, SourceError { span: Span { id: 50 }, kind: ErrorKind::AutoPlacement });
    assert_eq!(
        error.message(),
        Some("automatic positioning is only available for floating placement")
    );
    assert_eq!(
        error.hint(),
        Some("you can enable floating placement with `place(float: true, ..)`")
    );
}

#[test]
fn only_floats_are_placed_against_the_parent() {
    let mut engine = typist(vec![]);
    let fixed = place(
        false,
        Smart::Custom(Alignment::Both(HAlignment::End, VAlignment::Bottom)),
        PlacementScope::Parent,
    );
    let error = gather(&mut engine, &[Element::Place(fixed)]).unwrap_err();
    assert_eq!(error, SourceError { span: Span { id: 50 }, kind: ErrorKind::ParentPlacement });
    assert_eq!(
        error.message(),
        Some("parent-scoped positioning is currently only available for floating placement")
    );
    assert_eq!(
        error.hint(),
        Some("you can enable floating placement with `place(float: true, ..)`")
    );
    let fixed = place(
        false,
        Smart::Custom(Alignment::Both(HAlignment::End, VAlignment::Bottom)),
        PlacementScope::Column,
    );
    let children = gather(&mut engine, &[Element::Place(fixed)]).unwrap();
    match &children[0] {
        Child::Placed(placed) => {
            assert_eq!(placed.align_x, FixedAlignment::Start);
            assert_eq!(placed.align_y, Smart::Custom(Some(FixedAlignment::End)));
            assert!(!placed.float);
        }
        _ => panic!("the child is the placed element"),
    }
    let missing = SourceError::new(Span { id: 1 }, ErrorKind::MissingFrame);
    assert_eq!(missing.message(), Some("a block yielded fewer frames than it had before"));
}

fn inline(engine: &mut Typist, elements: &[Element]) -> Result<Vec<Child>, SourceError> {
    collect(
        engine,
        elements,
        Locator::new(40),
        Axes::new(points(200), points(300)),
        true,
        FlowMode::Inline,
        style(),
    )
}

#[test]
fn inline_content_keeps_its_tags_at_both_ends() {
    let mut engine = typist(vec![line(1, 10), line(2, 11)]);
    let text = Element::Other(Stray { name: "text", span: Span { id: 0 } });
    let elements = [
        Element::Tag(Tag { id: 1 }),
        Element::Tag(Tag { id: 2 }),
        text,
        Element::Tag(Tag { id: 3 }),
        text,
        Element::Tag(Tag { id: 4 }),
    ];
    let children = inline(&mut engine, &elements).unwrap();
    assert_eq!(
        summary(&children),
        vec!["tag 1", "tag 2", "line 1 24", "rel 3 5", "line 2 11", "tag 4"]
    );
    assert_eq!(engine.inline_len, Some(3));
    match &children[2] {
        Child::Line(first) => {
            assert_eq!(first.align, Axes::new(FixedAlignment::End, FixedAlignment::Start))
        }
        _ => panic!("the third child is a line"),
    }
    assert!(engine.warnings.is_empty());
}

#[test]
fn inline_content_of_tags_alone() {
    let mut engine = typist(vec![]);
    let elements = [Element::Tag(Tag { id: 1 }), Element::Tag(Tag { id: 2 })];
    let children = inline(&mut engine, &elements).unwrap();
    assert_eq!(summary(&children), vec!["tag 1", "tag 2"]);
    assert_eq!(engine.inline_len, Some(0));
    let children = inline(&mut engine, &[]).unwrap();
    assert_eq!(summary(&children), Vec::<String>::new());
    let text = Element::Other(Stray { name: "text", span: Span { id: 0 } });
    let children = inline(&mut engine, &[text]).unwrap();
    assert_eq!(summary(&children), Vec::<String>::new());
    assert_eq!(engine.inline_len, Some(1));
}

#[test]
fn inline_content_fails_with_the_engine() {
    let mut engine = typist(vec![]);
    engine.fails = true;
    let error = inline(&mut engine, &[Element::Tag(Tag { id: 1 })]).unwrap_err();
    assert_eq!(error.kind, ErrorKind::Engine(4));
}

#[test]
fn a_collector_collects_step_by_step() {
    let elements = [Element::Flush, Element::Flush];
    let mut collector = Collector::new(
        &elements,
        Locator::new(3),
        Axes::new(points(10), points(10)),
        false,
        true,
    );
    collector.v(&VElem { amount: Spacing::Fr(Fr::one()), weakness: 2 });
    collector.par_deferred(&paragraph(5));
    collector.lines(vec![line(1, 10), line(2, 10)], points(1), top_left(), Costs {
        widow: Ratio::zero(),
        orphan: Ratio::zero(),
    });
    collector.block(&block(6));
    collector.tags(0, 2);
    assert_eq!(
        summary(&collector.output),
        vec![
            "fr 65536 2", "par 5 1", "line 1 10", "rel 1 5", "line 2 10", "rel 7 4", "multi 6 2",
            "rel 3 3"
        ]
    );
    assert_eq!(collector.par_situation, ParSituation::Other);
    assert_eq!(collector.locator.handed_out, 2);
    assert_eq!(*collector.boxed(7u8), 7);
}

#[test]
fn without_wraps_the_collection_is_that_of_paragraphs_laid_out_at_once() {
    let elements = [
        Element::Tag(Tag { id: 1 }),
        Element::Par(paragraph(7)),
        Element::Block(block(9)),
        Element::Par(paragraph(8)),
    ];
    let mut engine = typist(vec![line(1, 10), line(2, 11)]);
    let collected = gather(&mut engine, &elements).unwrap();
    let mut engine = typist(vec![line(1, 10), line(2, 11)]);
    let mut forced = Collector::new(
        &elements,
        Locator::new(40),
        Axes::new(points(200), points(300)),
        true,
        false,
    );
    forced.run_block(&mut engine).unwrap();
    assert_eq!(summary(&collected), summary(&forced.output));
    assert!(!forced.use_deferred_par);
    assert_eq!(forced.warnings.len(), 0);
}

#[test]
fn the_bounds_of_inline_content() {
    let text = Element::Other(Stray { name: "text", span: Span { id: 0 } });
    let elements = [Element::Tag(Tag { id: 1 }), text, Element::Tag(Tag { id: 2 }), text, Element::Tag(Tag { id: 3 })];
    let mut collector = Collector::new(
        &elements,
        Locator::new(3),
        Axes::new(points(10), points(10)),
        false,
        false,
    );
    assert_eq!(collector.inline_bounds(), (1, 4));
    collector.inline_laid_out(1, 4, vec![line(7, 10)], style());
    assert_eq!(summary(&collector.output), vec!["tag 1", "line 7 10", "tag 3"]);
    assert_eq!(collector.locator.handed_out, 1);
    let tags = [Element::Tag(Tag { id: 1 }), Element::Tag(Tag { id: 2 })];
    let collector = Collector::new(
        &tags,
        Locator::new(3),
        Axes::new(points(10), points(10)),
        false,
        false,
    );
    assert_eq!(collector.inline_bounds(), (2, 2));
}
