//! The collector: it makes prepared children of the elements of a flow.

use vstd::prelude::*;
use crate::abs::Abs;
use crate::abs::Rel;
use crate::cell::CachedCell;
use crate::child::Child;
use crate::child::LineChild;
use crate::child::MastheadChild;
use crate::child::MultiChild;
use crate::child::ParChild;
use crate::child::PlacedChild;
use crate::child::SingleChild;
use crate::child::WrapChild;
use crate::diag::ErrorKind;
use crate::diag::SourceError;
use crate::elements::BlockElem;
use crate::elements::Costs;
use crate::elements::Element;
use crate::elements::FlowMode;
use crate::elements::LineStyle;
use crate::elements::ParElem;
use crate::elements::ParSituation;
use crate::elements::PlaceElem;
use crate::elements::Spacing;
use crate::elements::VElem;
use crate::engine::Engine;
use crate::engine::Locator;
use crate::engine::SplitLocator;
use crate::engine::Warning;
use crate::frame::Frame;
use crate::frame::Tag;
use crate::geom::Axes;
use crate::geom::FixedAlignment;
use crate::geom::HAlignment;
use crate::geom::PlacementScope;
use crate::geom::Size;
use crate::geom::Smart;
use crate::lines::line_need;
use crate::lines::need_of;
use crate::masthead::MastheadElem;
use crate::wrap::WrapElem;
use crate::wrap::spec_cutout_side;

verus! {

/// What stays the same throughout a collection.
pub struct Setup {
    /// The size against which paragraphs are laid out.
    pub base: Size,
    /// Whether paragraphs fill the width.
    pub expand: bool,
    /// Whether paragraphs are laid out only when they are distributed.
    pub deferred: bool,
    /// Whether the flow has a single element.
    pub alone: bool,
}

/// The state of a collection as a value.
pub struct Collected {
    pub output: Seq<Child>,
    pub situation: ParSituation,
    pub locator: SplitLocator,
    pub warnings: Seq<Warning>,
}

/// What the engine answered when it was asked for the lines of an element,
/// and nothing for an element for which it was not asked.
pub type Reply = Option<Result<Seq<Frame>, SourceError>>;

/// The child for vertical spacing.
pub open spec fn spec_v(elem: VElem) -> Child {
    match elem.amount {
        Spacing::Rel(rel) => Child::Rel(rel, elem.weakness),
        Spacing::Fr(fr) => Child::Fr(fr, elem.weakness),
    }
}

/// The children for the first `n` of the lines of a paragraph: before
/// every line but the first stands the leading, as the weakest spacing
/// there is.
pub open spec fn line_children(
    lines: Seq<Frame>,
    leading: Abs,
    align: Axes<FixedAlignment>,
    costs: Costs,
    n: nat,
) -> Seq<Child>
    decreases n,
{
    if n == 0 {
        Seq::empty()
    } else {
        let before = line_children(lines, leading, align, costs, (n - 1) as nat);
        let spaced = if n == 1 {
            before
        } else {
            before.push(Child::Rel(Rel::spec_from_abs(leading), 5))
        };
        spaced.push(
            Child::Line(
                Box::new(
                    LineChild {
                        frame: lines[n - 1],
                        align,
                        need: need_of(lines, n - 1, leading, costs),
                    },
                ),
            ),
        )
    }
}

/// The child for a paragraph whose layout is put off.
pub open spec fn spec_par_child(
    elem: ParElem,
    locator: Locator,
    situation: ParSituation,
    setup: Setup,
) -> Child {
    Child::Par(
        Box::new(
            ParChild {
                elem,
                locator,
                situation,
                base: setup.base,
                expand: setup.expand,
                spacing: Rel::spec_from_abs(elem.spacing),
                leading: elem.leading,
                align: elem.align,
                costs: elem.costs,
            },
        ),
    )
}

/// The children for a paragraph that is laid out: its lines between the
/// paragraph's spacing, above and below.
pub open spec fn spec_par_lines(elem: ParElem, lines: Seq<Frame>) -> Seq<Child> {
    seq![Child::Rel(Rel::spec_from_abs(elem.spacing), 4)] + line_children(
        lines,
        elem.leading,
        elem.align,
        elem.costs,
        lines.len(),
    ) + seq![Child::Rel(Rel::spec_from_abs(elem.spacing), 4)]
}

/// The child for the spacing above or below a block. Automatic spacing is
/// that of paragraphs, and as weak; given spacing is less weak, and given
/// fractional spacing less weak again.
pub open spec fn spec_block_spacing(amount: Smart<Spacing>, fallback: Abs) -> Child {
    match amount {
        Smart::Auto => Child::Rel(Rel::spec_from_abs(fallback), 4),
        Smart::Custom(Spacing::Rel(rel)) => Child::Rel(rel, 3),
        Smart::Custom(Spacing::Fr(fr)) => Child::Fr(fr, 2),
    }
}

/// The child for a block: one that does not break, or whose height is a
/// fraction, is laid out in one piece.
pub open spec fn spec_block_child(elem: BlockElem, locator: Locator, alone: bool) -> Child {
    if !elem.breakable || elem.height is Some {
        Child::Single(
            Box::new(
                SingleChild {
                    align: elem.align,
                    sticky: elem.sticky,
                    alone,
                    fr: elem.height,
                    elem,
                    locator,
                    cell: CachedCell { slot: None },
                },
            ),
        )
    } else {
        Child::Multi(
            Box::new(
                MultiChild {
                    align: elem.align,
                    sticky: elem.sticky,
                    alone,
                    elem,
                    locator,
                    cell: CachedCell { slot: None },
                },
            ),
        )
    }
}

/// The horizontal alignment of a placed element: the center if none is
/// given, and the start if only a vertical one is.
pub open spec fn spec_place_align_x(elem: PlaceElem) -> FixedAlignment {
    match elem.alignment {
        Smart::Auto => FixedAlignment::Center,
        Smart::Custom(alignment) => match alignment.x_spec() {
            Some(x) => x.fix_spec(elem.dir),
            None => HAlignment::Start.fix_spec(elem.dir),
        },
    }
}

/// The vertical alignment of a placed element, if one is given.
pub open spec fn spec_place_align_y(elem: PlaceElem) -> Smart<Option<FixedAlignment>> {
    match elem.alignment {
        Smart::Auto => Smart::Auto,
        Smart::Custom(alignment) => Smart::Custom(
            match alignment.y_spec() {
                Some(y) => Some(y.fix_spec()),
                None => None,
            },
        ),
    }
}

/// What is wrong with a placed element, if anything. A float is aligned
/// to the top or the bottom, or automatically; any other placed element
/// has an alignment, and is placed against its column.
pub open spec fn spec_place_error(elem: PlaceElem) -> Option<ErrorKind> {
    let align_y = spec_place_align_y(elem);
    if elem.float && (align_y == Smart::Custom(None::<FixedAlignment>) || align_y == Smart::Custom(
        Some(FixedAlignment::Center),
    )) {
        Some(ErrorKind::FloatAlignment)
    } else if !elem.float && align_y is Auto {
        Some(ErrorKind::AutoPlacement)
    } else if !elem.float && elem.scope == PlacementScope::Parent {
        Some(ErrorKind::ParentPlacement)
    } else {
        None
    }
}

/// The child for a placed element.
pub open spec fn spec_placed_child(elem: PlaceElem, locator: Locator) -> Child {
    Child::Placed(
        Box::new(
            PlacedChild {
                align_x: spec_place_align_x(elem),
                align_y: spec_place_align_y(elem),
                scope: elem.scope,
                float: elem.float,
                clearance: elem.clearance,
                delta: Axes { x: elem.dx, y: elem.dy },
                elem,
                locator,
                alignment: elem.alignment,
                cell: CachedCell { slot: None },
            },
        ),
    )
}

/// The child for a wrap.
pub open spec fn spec_wrap_child(elem: WrapElem, locator: Locator) -> Child {
    Child::Wrap(
        Box::new(
            WrapChild {
                side: spec_cutout_side(elem.side, elem.dir),
                scope: elem.scope,
                clearance: elem.clearance,
                elem,
                locator,
                cell: CachedCell { slot: None },
            },
        ),
    )
}

/// The child for a masthead.
pub open spec fn spec_masthead_child(elem: MastheadElem, locator: Locator) -> Child {
    Child::Masthead(
        Box::new(
            MastheadChild {
                side: spec_cutout_side(elem.side, elem.dir),
                scope: elem.scope,
                clearance: elem.clearance,
                width: elem.width,
                elem,
                locator,
                cell: CachedCell { slot: None },
            },
        ),
    )
}

/// Whether text flows around one of the elements.
pub open spec fn spec_has_wraps(children: Seq<Element>) -> bool {
    exists|i: int| 0 <= i < children.len() && (#[trigger] children[i]).spec_is_wrapping()
}

impl Collected {
    pub open spec fn pushed(self, child: Child) -> Collected {
        Collected { output: self.output.push(child), ..self }
    }

    pub open spec fn extended(self, children: Seq<Child>) -> Collected {
        Collected { output: self.output + children, ..self }
    }

    /// With one more locator handed out.
    pub open spec fn located(self) -> Collected {
        Collected {
            locator: SplitLocator {
                base: self.locator.base,
                handed_out: (self.locator.handed_out + 1) as u64,
            },
            ..self
        }
    }

    pub open spec fn situated(self, situation: ParSituation) -> Collected {
        Collected { situation, ..self }
    }

    /// After a paragraph whose layout is put off.
    pub open spec fn par_deferred(self, elem: ParElem, setup: Setup) -> Collected {
        self.located().pushed(
            spec_par_child(elem, self.locator.spec_next(), self.situation, setup),
        ).situated(ParSituation::Consecutive)
    }

    /// After a paragraph that the engine has broken into the given lines.
    pub open spec fn par_laid_out(self, elem: ParElem, lines: Seq<Frame>) -> Collected {
        self.located().extended(spec_par_lines(elem, lines)).situated(ParSituation::Consecutive)
    }

    /// After a block: the spacing above it, the block, the spacing below.
    pub open spec fn block(self, elem: BlockElem, setup: Setup) -> Collected {
        self.located().pushed(spec_block_spacing(elem.above, elem.par_spacing)).pushed(
            spec_block_child(elem, self.locator.spec_next(), setup.alone),
        ).pushed(spec_block_spacing(elem.below, elem.par_spacing)).situated(ParSituation::Other)
    }

    /// After a placed element that is in order.
    pub open spec fn placed(self, elem: PlaceElem) -> Collected {
        self.located().pushed(spec_placed_child(elem, self.locator.spec_next()))
    }

    pub open spec fn wrapped(self, elem: WrapElem) -> Collected {
        self.located().pushed(spec_wrap_child(elem, self.locator.spec_next())).situated(
            ParSituation::Other,
        )
    }

    pub open spec fn mastheaded(self, elem: MastheadElem) -> Collected {
        self.located().pushed(spec_masthead_child(elem, self.locator.spec_next())).situated(
            ParSituation::Other,
        )
    }

    pub open spec fn warned(self, warning: Warning) -> Collected {
        Collected { warnings: self.warnings.push(warning), ..self }
    }

    /// After one element of a flow of blocks. `reply` is what the engine
    /// answered for the lines of a paragraph, where it was asked. A page
    /// break is an error, and so is a placed element that is not in order;
    /// an element that has no place in a flow leaves a warning and nothing
    /// else.
    pub open spec fn step(self, elem: Element, reply: Reply, setup: Setup) -> Result<
        Collected,
        SourceError,
    > {
        match elem {
            Element::Tag(tag) => Ok(self.pushed(Child::Tag(tag))),
            Element::V(v) => Ok(self.pushed(spec_v(v))),
            Element::Par(par) => if setup.deferred {
                Ok(self.par_deferred(par, setup))
            } else {
                match reply {
                    Some(Ok(lines)) => Ok(self.par_laid_out(par, lines)),
                    Some(Err(error)) => Err(error),
                    None => Ok(self),
                }
            },
            Element::Block(block) => Ok(self.block(block, setup)),
            Element::Place(place) => match spec_place_error(place) {
                Some(kind) => Err(SourceError { span: place.span, kind }),
                None => Ok(self.placed(place)),
            },
            Element::Wrap(wrap) => Ok(self.wrapped(wrap)),
            Element::Masthead(masthead) => Ok(self.mastheaded(masthead)),
            Element::Flush => Ok(self.pushed(Child::Flush)),
            Element::Colbreak(weak) => Ok(self.pushed(Child::Break(weak))),
            Element::Pagebreak(span) => Err(
                SourceError { span, kind: ErrorKind::PagebreakInContainer },
            ),
            Element::Other(stray) => Ok(
                self.warned(Warning { span: stray.span, name: stray.name }),
            ),
        }
    }

    /// After the elements of a flow of blocks, one after the other, with
    /// one reply for each. The first error ends the collection.
    pub open spec fn steps(self, children: Seq<Element>, replies: Seq<Reply>, setup: Setup) -> Result<
        Collected,
        SourceError,
    >
        decreases children.len(),
    {
        if children.len() == 0 {
            Ok(self)
        } else {
            match self.steps(children.drop_last(), replies.drop_last(), setup) {
                Ok(before) => before.step(children.last(), replies.last(), setup),
                Err(error) => Err(error),
            }
        }
    }

    /// The tags among the first `n` elements as children.
    pub open spec fn tagged(self, children: Seq<Element>, n: nat) -> Collected
        decreases n,
    {
        if n == 0 {
            self
        } else {
            let before = self.tagged(children, (n - 1) as nat);
            match children[n - 1] {
                Element::Tag(tag) => before.pushed(Child::Tag(tag)),
                _ => before,
            }
        }
    }

    /// After a flow of inline content that the engine has broken into the
    /// given lines: the tags at its start, the lines, the tags at its end.
    /// `start` and `end` bound what lies between the tags.
    pub open spec fn inline(
        self,
        children: Seq<Element>,
        start: int,
        end: int,
        lines: Seq<Frame>,
        style: LineStyle,
    ) -> Collected {
        self.located().tagged(children.take(start), start as nat).extended(
            line_children(lines, style.leading, style.align, style.costs, lines.len()),
        ).tagged(children.skip(end), (children.len() - end) as nat)
    }
}

/// The state of a collection.
pub struct Collector<'x> {
    /// The elements of the flow.
    pub children: &'x [Element],
    /// The size against which paragraphs are laid out.
    pub base: Size,
    /// Whether paragraphs fill the width.
    pub expand: bool,
    /// Where the locators of the children come from.
    pub locator: SplitLocator,
    /// The children so far.
    pub output: Vec<Child>,
    /// Where the next paragraph stands among its neighbours.
    pub par_situation: ParSituation,
    /// Whether paragraphs are laid out only when they are distributed,
    /// as they are where text flows around something.
    pub use_deferred_par: bool,
    /// The warnings so far.
    pub warnings: Vec<Warning>,
}

impl<'x> View for Collector<'x> {
    type V = Collected;

    open spec fn view(&self) -> Collected {
        Collected {
            output: self.output@,
            situation: self.par_situation,
            locator: self.locator,
            warnings: self.warnings@,
        }
    }
}

/// `SliceExt::split_prefix_suffix` of `typst_utils`, asked for the tags at
/// the two ends of the elements. The first index is where the tags at the
/// start end: all before it are tags, and the element there, if there is
/// one, is none. The second is where the tags at the end begin: all from
/// there on are tags, and the element before it is none, unless the two
/// indices meet.
#[verifier::external_body]
fn tag_bounds(children: &[Element]) -> (bounds: (usize, usize))
    ensures
        bounds.0 <= bounds.1,
        bounds.1 <= children@.len(),
        forall|i: int| 0 <= i < bounds.0 ==> (#[trigger] children@[i]).spec_is_tag(),
        bounds.0 < children@.len() ==> !children@[bounds.0 as int].spec_is_tag(),
        forall|i: int| bounds.1 <= i < children@.len() ==> (#[trigger] children@[i]).spec_is_tag(),
        bounds.0 < bounds.1 ==> !children@[bounds.1 - 1].spec_is_tag(),
{
    typst_utils::SliceExt::split_prefix_suffix(children, |child: &Element| child.is_tag())
}

/// Whether text flows around one of the elements.
pub fn has_wraps(children: &[Element]) -> (r: bool)
    ensures
        r == spec_has_wraps(children@),
{
    let mut i: usize = 0;
    while i < children.len()
        invariant
            i <= children@.len(),
            forall|j: int| 0 <= j < i ==> !(#[trigger] children@[j]).spec_is_wrapping(),
        decreases children@.len() - i,
    {
        if children[i].is_wrapping() {
            return true;
        }
        i += 1;
    }
    false
}

impl<'x> Collector<'x> {
    /// What stays the same throughout the collection.
    pub open spec fn setup(&self) -> Setup {
        Setup {
            base: self.base,
            expand: self.expand,
            deferred: self.use_deferred_par,
            alone: self.children@.len() == 1,
        }
    }

    /// Everything but the state of the collection is as in `before`.
    pub open spec fn same_flow(&self, before: &Collector<'x>) -> bool {
        &&& self.children == before.children
        &&& self.base == before.base
        &&& self.expand == before.expand
        &&& self.use_deferred_par == before.use_deferred_par
    }

    /// A collector at the start of a flow.
    pub fn new(
        children: &'x [Element],
        locator: Locator,
        base: Size,
        expand: bool,
        use_deferred_par: bool,
    ) -> (collector: Collector<'x>)
        ensures
            collector.children == children,
            collector.base == base,
            collector.expand == expand,
            collector.use_deferred_par == use_deferred_par,
            collector@ == (Collected {
                output: Seq::empty(),
                situation: ParSituation::First,
                locator: SplitLocator { base: locator.base, handed_out: 0 },
                warnings: Seq::empty(),
            }),
    {
        Collector {
            children,
            base,
            expand,
            locator: locator.split(),
            output: Vec::new(),
            par_situation: ParSituation::First,
            use_deferred_par,
            warnings: Vec::new(),
        }
    }

    /// Puts a value in a box, so that the child that holds it stays small.
    pub fn boxed<T>(&self, value: T) -> (r: Box<T>)
        ensures
            *r == value,
    {
        Box::new(value)
    }

    /// Collects vertical spacing.
    pub fn v(&mut self, elem: &VElem)
        ensures
            final(self)@ == old(self)@.pushed(spec_v(*elem)),
            final(self).same_flow(old(self)),
    {
        let child = match elem.amount {
            Spacing::Rel(rel) => Child::Rel(rel, elem.weakness),
            Spacing::Fr(fr) => Child::Fr(fr, elem.weakness),
        };
        self.output.push(child);
    }

    /// Collects the lines of a paragraph: each line with what it needs
    /// around it, and the leading between two lines.
    pub fn lines(&mut self, lines: Vec<Frame>, leading: Abs, align: Axes<FixedAlignment>, costs: Costs)
        ensures
            final(self)@ == old(self)@.extended(
                line_children(lines@, leading, align, costs, lines@.len()),
            ),
            final(self).same_flow(old(self)),
    {
        let mut i: usize = 0;
        while i < lines.len()
            invariant
                i <= lines@.len(),
                self.output@ == old(self).output@ + line_children(
                    lines@,
                    leading,
                    align,
                    costs,
                    i as nat,
                ),
                self.par_situation == old(self).par_situation,
                self.locator == old(self).locator,
                self.warnings == old(self).warnings,
                self.same_flow(old(self)),
            decreases lines@.len() - i,
        {
            if i > 0 {
                self.output.push(Child::Rel(Rel::from_abs(leading), 5));
            }
            let need = line_need(&lines, i, leading, costs);
            let line = self.boxed(LineChild { frame: lines[i], align, need });
            self.output.push(Child::Line(line));
            proof {
                assert(self.output@ =~= old(self).output@ + line_children(
                    lines@,
                    leading,
                    align,
                    costs,
                    (i + 1) as nat,
                ));
            }
            i += 1;
        }
        proof {
            assert(old(self).output@ + line_children(lines@, leading, align, costs, 0) =~= old(self).output@);
        }
    }

    /// Collects a paragraph whose layout is put off.
    pub fn par_deferred(&mut self, elem: &ParElem)
        requires
            old(self).locator.handed_out < u64::MAX,
        ensures
            final(self)@ == old(self)@.par_deferred(*elem, old(self).setup()),
            final(self).same_flow(old(self)),
    {
        let child = ParChild {
            elem: *elem,
            locator: self.locator.next(),
            situation: self.par_situation,
            base: self.base,
            expand: self.expand,
            spacing: Rel::from_abs(elem.spacing),
            leading: elem.leading,
            align: elem.align,
            costs: elem.costs,
        };
        let child = self.boxed(child);
        self.output.push(Child::Par(child));
        self.par_situation = ParSituation::Consecutive;
    }

    /// Collects a paragraph that the engine has broken into lines.
    pub fn par_laid_out(&mut self, elem: &ParElem, lines: Vec<Frame>)
        requires
            old(self).locator.handed_out < u64::MAX,
        ensures
            final(self)@ == old(self)@.par_laid_out(*elem, lines@),
            final(self).same_flow(old(self)),
    {
        self.locator.handed_out = self.locator.handed_out + 1;
        self.output.push(Child::Rel(Rel::from_abs(elem.spacing), 4));
        let ghost lines_seq = lines@;
        self.lines(lines, elem.leading, elem.align, elem.costs);
        self.output.push(Child::Rel(Rel::from_abs(elem.spacing), 4));
        self.par_situation = ParSituation::Consecutive;
        proof {
            assert(self.output@ =~= old(self).output@ + spec_par_lines(*elem, lines_seq));
        }
    }

    /// Collects a paragraph. Where text flows around something, the
    /// paragraph is kept to be laid out when it is distributed; else the
    /// engine breaks it into lines now, and only an error of the engine
    /// makes this fail.
    pub fn par<E: Engine>(&mut self, engine: &mut E, elem: &ParElem) -> (r: Result<(), SourceError>)
        requires
            old(self).locator.handed_out < u64::MAX,
        ensures
            final(self).same_flow(old(self)),
            old(self).use_deferred_par ==> r is Ok && final(self)@ == old(self)@.par_deferred(
                *elem,
                old(self).setup(),
            ),
            !old(self).use_deferred_par ==> exists|reply: Reply| #[trigger]
                old(self)@.step(Element::Par(*elem), reply, old(self).setup()) == (match r {
                    Ok(_) => Ok::<Collected, SourceError>(final(self)@),
                    Err(error) => Err::<Collected, SourceError>(error),
                }) && reply is Some,
            r is Err ==> final(self)@ == old(self)@,
    {
        if self.use_deferred_par {
            self.par_deferred(elem);
            return Ok(());
        }
        let locator = Locator { base: self.locator.base, index: self.locator.handed_out + 1 };
        match engine.layout_par(elem, locator, self.base, self.expand, self.par_situation) {
            Ok(lines) => {
                let ghost reply: Reply = Some(Ok(lines@));
                self.par_laid_out(elem, lines);
                proof {
                    assert(old(self)@.step(Element::Par(*elem), reply, old(self).setup()) == Ok::<
                        Collected,
                        SourceError,
                    >(self@));
                }
                Ok(())
            },
            Err(error) => {
                proof {
                    let reply: Reply = Some(Err(error));
                    assert(old(self)@.step(Element::Par(*elem), reply, old(self).setup()) == Err::<
                        Collected,
                        SourceError,
                    >(error));
                }
                Err(error)
            },
        }
    }

    /// The child for the spacing above or below a block.
    pub fn block_spacing(amount: Smart<Spacing>, fallback: Abs) -> (child: Child)
        ensures
            child == spec_block_spacing(amount, fallback),
    {
        match amount {
            Smart::Auto => Child::Rel(Rel::from_abs(fallback), 4),
            Smart::Custom(Spacing::Rel(rel)) => Child::Rel(rel, 3),
            Smart::Custom(Spacing::Fr(fr)) => Child::Fr(fr, 2),
        }
    }

    /// Collects a block: the spacing above it, the block itself, which is
    /// laid out in one piece if it does not break or if its height is a
    /// fraction, and the spacing below it.
    pub fn block(&mut self, elem: &BlockElem)
        requires
            old(self).locator.handed_out < u64::MAX,
        ensures
            final(self)@ == old(self)@.block(*elem, old(self).setup()),
            final(self).same_flow(old(self)),
    {
        let locator = self.locator.next();
        let alone = self.children.len() == 1;
        self.output.push(Collector::block_spacing(elem.above, elem.par_spacing));
        if !elem.breakable || elem.height.is_some() {
            let single = self.boxed(
                SingleChild {
                    align: elem.align,
                    sticky: elem.sticky,
                    alone,
                    fr: elem.height,
                    elem: *elem,
                    locator,
                    cell: CachedCell::new(),
                },
            );
            self.output.push(Child::Single(single));
        } else {
            let multi = self.boxed(
                MultiChild {
                    align: elem.align,
                    sticky: elem.sticky,
                    alone,
                    elem: *elem,
                    locator,
                    cell: CachedCell::new(),
                },
            );
            self.output.push(Child::Multi(multi));
        }
        self.output.push(Collector::block_spacing(elem.below, elem.par_spacing));
        self.par_situation = ParSituation::Other;
    }

    /// Collects a placed element, if it is in order.
    pub fn place(&mut self, elem: &PlaceElem) -> (r: Result<(), SourceError>)
        requires
            old(self).locator.handed_out < u64::MAX,
        ensures
            final(self).same_flow(old(self)),
            match spec_place_error(*elem) {
                Some(kind) => r == Err::<(), SourceError>(SourceError { span: elem.span, kind })
                    && final(self)@ == old(self)@,
                None => r is Ok && final(self)@ == old(self)@.placed(*elem),
            },
    {
        let align_x = match elem.alignment {
            Smart::Auto => FixedAlignment::Center,
            Smart::Custom(alignment) => match alignment.x() {
                Some(x) => x.fix(elem.dir),
                None => HAlignment::Start.fix(elem.dir),
            },
        };
        let align_y = match elem.alignment {
            Smart::Auto => Smart::Auto,
            Smart::Custom(alignment) => Smart::Custom(
                match alignment.y() {
                    Some(y) => Some(y.fix()),
                    None => None,
                },
            ),
        };
        match (elem.float, align_y) {
            (true, Smart::Custom(None)) => {
                return Err(SourceError::new(elem.span, ErrorKind::FloatAlignment));
            },
            (true, Smart::Custom(Some(FixedAlignment::Center))) => {
                return Err(SourceError::new(elem.span, ErrorKind::FloatAlignment));
            },
            (false, Smart::Auto) => {
                return Err(SourceError::new(elem.span, ErrorKind::AutoPlacement));
            },
            _ => {},
        }
        let parent = match elem.scope {
            PlacementScope::Parent => true,
            PlacementScope::Column => false,
        };
        if !elem.float && parent {
            return Err(SourceError::new(elem.span, ErrorKind::ParentPlacement));
        }
        let locator = self.locator.next();
        let placed = self.boxed(
            PlacedChild {
                align_x,
                align_y,
                scope: elem.scope,
                float: elem.float,
                clearance: elem.clearance,
                delta: Axes { x: elem.dx, y: elem.dy },
                elem: *elem,
                locator,
                alignment: elem.alignment,
                cell: CachedCell::new(),
            },
        );
        self.output.push(Child::Placed(placed));
        Ok(())
    }

    /// Collects a wrap, on the logical side that its alignment names in
    /// the text around it.
    pub fn wrap(&mut self, elem: &WrapElem)
        requires
            old(self).locator.handed_out < u64::MAX,
        ensures
            final(self)@ == old(self)@.wrapped(*elem),
            final(self).same_flow(old(self)),
    {
        let locator = self.locator.next();
        let side = elem.cutout_side(elem.dir);
        let wrap = self.boxed(
            WrapChild {
                side,
                scope: elem.scope,
                clearance: elem.clearance,
                elem: *elem,
                locator,
                cell: CachedCell::new(),
            },
        );
        self.output.push(Child::Wrap(wrap));
        self.par_situation = ParSituation::Other;
    }

    /// Collects a masthead, on the logical side that its alignment names
    /// in the text around it.
    pub fn masthead(&mut self, elem: &MastheadElem)
        requires
            old(self).locator.handed_out < u64::MAX,
        ensures
            final(self)@ == old(self)@.mastheaded(*elem),
            final(self).same_flow(old(self)),
    {
        let locator = self.locator.next();
        let side = elem.cutout_side(elem.dir);
        let masthead = self.boxed(
            MastheadChild {
                side,
                scope: elem.scope,
                clearance: elem.clearance,
                width: elem.width,
                elem: *elem,
                locator,
                cell: CachedCell::new(),
            },
        );
        self.output.push(Child::Masthead(masthead));
        self.par_situation = ParSituation::Other;
    }

    /// Collects the tags among the elements from `from` up to `to`.
    pub fn tags(&mut self, from: usize, to: usize)
        requires
            from <= to <= old(self).children@.len(),
        ensures
            final(self)@ == old(self)@.tagged(
                old(self).children@.subrange(from as int, to as int),
                (to - from) as nat,
            ),
            final(self).same_flow(old(self)),
    {
        let ghost part = self.children@.subrange(from as int, to as int);
        let mut i: usize = from;
        while i < to
            invariant
                from <= i <= to,
                to <= self.children@.len(),
                part == self.children@.subrange(from as int, to as int),
                self@ == old(self)@.tagged(part, (i - from) as nat),
                self.same_flow(old(self)),
            decreases to - i,
        {
            assert(part[i - from] == self.children@[i as int]);
            match self.children[i] {
                Element::Tag(tag) => {
                    self.output.push(Child::Tag(tag));
                },
                _ => {},
            }
            i += 1;
        }
    }

    /// Collects a flow of blocks, element by element. A page break is an
    /// error, and so is a placed element that is not in order; an element
    /// that has no place in a flow leaves a warning. Where paragraphs are
    /// laid out at once, an error of the engine ends the collection too.
    pub fn run_block<E: Engine>(&mut self, engine: &mut E) -> (r: Result<(), SourceError>)
        requires
            old(self).locator.handed_out + old(self).children@.len() <= u64::MAX,
        ensures
            final(self).same_flow(old(self)),
            exists|replies: Seq<Reply>|
                replies.len() == old(self).children@.len() && answered(
                    old(self).children@,
                    replies,
                    old(self).setup(),
                ) && #[trigger] old(self)@.steps(
                    old(self).children@,
                    replies,
                    old(self).setup(),
                ) == (match r {
                    Ok(_) => Ok::<Collected, SourceError>(final(self)@),
                    Err(error) => Err::<Collected, SourceError>(error),
                }),
    {
        let ghost mut replies: Seq<Reply> = Seq::empty();
        let ghost start = self@;
        let ghost setup = self.setup();
        let mut i: usize = 0;
        while i < self.children.len()
            invariant
                i <= self.children@.len(),
                self.same_flow(old(self)),
                start == old(self)@,
                setup == old(self).setup(),
                replies.len() == i,
                answered(self.children@.take(i as int), replies, setup),
                self.locator.handed_out <= old(self).locator.handed_out + i,
                old(self).locator.handed_out + self.children@.len() <= u64::MAX,
                start.steps(self.children@.take(i as int), replies, setup) == Ok::<
                    Collected,
                    SourceError,
                >(self@),
            decreases self.children@.len() - i,
        {
            let ghost before = self@;
            let ghost mut reply: Reply = None;
            let outcome = match &self.children[i] {
                Element::Tag(tag) => {
                    self.output.push(Child::Tag(*tag));
                    Ok(())
                },
                Element::V(elem) => {
                    self.v(elem);
                    Ok(())
                },
                Element::Par(elem) => {
                    let r = self.par(engine, elem);
                    proof {
                        if !self.use_deferred_par {
                            reply = choose|reply: Reply| #[trigger]
                                before.step(Element::Par(*elem), reply, setup) == (match r {
                                    Ok(_) => Ok::<Collected, SourceError>(self@),
                                    Err(error) => Err::<Collected, SourceError>(error),
                                }) && reply is Some;
                        }
                    }
                    r
                },
                Element::Block(elem) => {
                    self.block(elem);
                    Ok(())
                },
                Element::Place(elem) => self.place(elem),
                Element::Wrap(elem) => {
                    self.wrap(elem);
                    Ok(())
                },
                Element::Masthead(elem) => {
                    self.masthead(elem);
                    Ok(())
                },
                Element::Flush => {
                    self.output.push(Child::Flush);
                    Ok(())
                },
                Element::Colbreak(weak) => {
                    self.output.push(Child::Break(*weak));
                    Ok(())
                },
                Element::Pagebreak(span) => Err(
                    SourceError::new(*span, ErrorKind::PagebreakInContainer),
                ),
                Element::Other(stray) => {
                    self.warnings.push(Warning { span: stray.span, name: stray.name });
                    Ok(())
                },
            };
            proof {
                let next = self.children@.take(i + 1);
                assert(next.drop_last() == self.children@.take(i as int));
                assert(next.last() == self.children@[i as int]);
                assert(replies.push(reply).drop_last() == replies);
                assert(start.steps(next, replies.push(reply), setup) == before.step(
                    self.children@[i as int],
                    reply,
                    setup,
                ));
                assert forall|j: int|
                    0 <= j < next.len() && (#[trigger] next[j]) is Par && !setup.deferred implies replies.push(
                    reply,
                )[j] is Some by {
                    if j < i {
                        assert(self.children@.take(i as int)[j] == next[j]);
                    }
                }
                replies = replies.push(reply);
            }
            match outcome {
                Ok(_) => {},
                Err(error) => {
                    proof {
                        let n = i as int;
                        let rest = Seq::new(
                            (self.children@.len() - replies.len()) as nat,
                            |j: int| Some(Ok::<Seq<Frame>, SourceError>(Seq::empty())),
                        );
                        let all = replies + rest;
                        assert(all.take(n + 1) == replies);
                        assert(all.len() == self.children@.len());
                        assert forall|j: int|
                            0 <= j < self.children@.len() && (#[trigger] self.children@[j]) is Par
                                && !setup.deferred implies all[j] is Some by {
                            if j <= n {
                                assert(self.children@.take(n + 1)[j] == self.children@[j]);
                                assert(all[j] == replies[j]);
                            } else {
                                assert(all[j] == rest[j - replies.len()]);
                            }
                        }
                        lemma_error_ends(start, self.children@, all, setup, (n + 1) as nat);
                    }
                    return Err(error);
                },
            }
            i += 1;
        }
        proof {
            assert(self.children@.take(i as int) == self.children@);
        }
        Ok(())
    }
}

/// Whether the engine has answered for every paragraph that is laid out at
/// once: where paragraphs are not put off, there is a reply for each.
pub open spec fn answered(children: Seq<Element>, replies: Seq<Reply>, setup: Setup) -> bool {
    forall|i: int|
        0 <= i < children.len() && i < replies.len() && (#[trigger] children[i]) is Par
            && !setup.deferred ==> replies[i] is Some
}

/// Whether `start` and `end` bound what lies between the tags at the two
/// ends of the elements: all before `start` are tags, and the element
/// there, if there is one, is none; all from `end` on are tags, and the
/// element before it is none, unless the two meet.
pub open spec fn tag_bounded(children: Seq<Element>, start: int, end: int) -> bool {
    &&& 0 <= start <= end <= children.len()
    &&& forall|i: int| 0 <= i < start ==> (#[trigger] children[i]).spec_is_tag()
    &&& start < children.len() ==> !children[start].spec_is_tag()
    &&& forall|i: int| end <= i < children.len() ==> (#[trigger] children[i]).spec_is_tag()
    &&& start < end ==> !children[end - 1].spec_is_tag()
}

impl<'x> Collector<'x> {
    /// Collects a flow of inline content: the engine breaks what lies
    /// between the tags at the two ends into lines, and the children are
    /// the tags at the start, the lines, and the tags at the end. Only an
    /// error of the engine makes this fail, and nothing is collected then.
    pub fn run_inline<E: Engine>(&mut self, engine: &mut E, style: LineStyle) -> (r: Result<
        (),
        SourceError,
    >)
        requires
            old(self).locator.handed_out < u64::MAX,
        ensures
            final(self).same_flow(old(self)),
            r is Err ==> final(self)@ == old(self)@,
            r is Ok ==> exists|start: int, end: int, lines: Seq<Frame>|
                tag_bounded(old(self).children@, start, end) && final(self)@
                    == #[trigger] old(self)@.inline(old(self).children@, start, end, lines, style),
    {
        let (start, end) = self.inline_bounds();
        let inner = vstd::slice::slice_subrange(self.children, start, end);
        let locator = Locator { base: self.locator.base, index: self.locator.handed_out + 1 };
        match engine.layout_inline(inner, locator, self.base, self.expand) {
            Ok(lines) => {
                self.inline_laid_out(start, end, lines, style);
                Ok(())
            },
            Err(error) => Err(error),
        }
    }

    /// Where the tags at the start of the elements end, and where those at
    /// the end begin: what lies between is what the engine breaks into
    /// lines.
    pub fn inline_bounds(&self) -> (bounds: (usize, usize))
        ensures
            tag_bounded(self.children@, bounds.0 as int, bounds.1 as int),
    {
        tag_bounds(self.children)
    }

    /// Collects a flow of inline content that the engine has broken into
    /// lines: the tags before `start`, the lines, and the tags from `end`
    /// on.
    pub fn inline_laid_out(&mut self, start: usize, end: usize, lines: Vec<Frame>, style: LineStyle)
        requires
            start <= end <= old(self).children@.len(),
            old(self).locator.handed_out < u64::MAX,
        ensures
            final(self).same_flow(old(self)),
            final(self)@ == old(self)@.inline(
                old(self).children@,
                start as int,
                end as int,
                lines@,
                style,
            ),
    {
        let ghost lines_seq = lines@;
        let ghost children = self.children@;
        self.locator.handed_out = self.locator.handed_out + 1;
        self.tags(0, start);
        self.lines(lines, style.leading, style.align, style.costs);
        self.tags(end, self.children.len());
        proof {
            assert(children.subrange(0, start as int) == children.take(start as int));
            assert(children.subrange(end as int, children.len() as int) == children.skip(end as int));
            assert(self@ == old(self)@.inline(children, start as int, end as int, lines_seq, style));
        }
    }

    /// Collects the flow in the way of its mode.
    pub fn run<E: Engine>(&mut self, engine: &mut E, mode: FlowMode, style: LineStyle) -> (r: Result<
        (),
        SourceError,
    >)
        requires
            mode == FlowMode::Inline ==> old(self).locator.handed_out < u64::MAX,
            mode != FlowMode::Inline ==> old(self).locator.handed_out + old(self).children@.len()
                <= u64::MAX,
        ensures
            final(self).same_flow(old(self)),
            mode != FlowMode::Inline ==> exists|replies: Seq<Reply>|
                replies.len() == old(self).children@.len() && answered(
                    old(self).children@,
                    replies,
                    old(self).setup(),
                ) && #[trigger] old(self)@.steps(
                    old(self).children@,
                    replies,
                    old(self).setup(),
                ) == (match r {
                    Ok(_) => Ok::<Collected, SourceError>(final(self)@),
                    Err(error) => Err::<Collected, SourceError>(error),
                }),
            mode == FlowMode::Inline ==> (r is Err ==> final(self)@ == old(self)@) && (r is Ok
                ==> exists|start: int, end: int, lines: Seq<Frame>|
                tag_bounded(old(self).children@, start, end) && final(self)@
                    == #[trigger] old(self)@.inline(old(self).children@, start, end, lines, style)),
    {
        match mode {
            FlowMode::Root => self.run_block(engine),
            FlowMode::Block => self.run_block(engine),
            FlowMode::Inline => self.run_inline(engine, style),
        }
    }
}

/// The state at the start of a collection.
pub open spec fn spec_fresh(locator: Locator) -> Collected {
    Collected {
        output: Seq::empty(),
        situation: ParSituation::First,
        locator: SplitLocator { base: locator.base, handed_out: 0 },
        warnings: Seq::empty(),
    }
}

/// What stays the same throughout the collection of the given elements:
/// paragraphs are put off exactly where text flows around something.
pub open spec fn spec_setup(children: Seq<Element>, base: Size, expand: bool) -> Setup {
    Setup { base, expand, deferred: spec_has_wraps(children), alone: children.len() == 1 }
}

/// Collects the elements of a flow into prepared children. Where a wrap
/// or a masthead is among the elements, every paragraph is kept to be laid
/// out when it is distributed; else every paragraph is laid out at once.
/// `style` is what the lines of an inline flow share. The warnings of the
/// collection go to the engine.
pub fn collect<E: Engine>(
    engine: &mut E,
    children: &[Element],
    locator: Locator,
    base: Size,
    expand: bool,
    mode: FlowMode,
    style: LineStyle,
) -> (r: Result<Vec<Child>, SourceError>)
    ensures
        mode != FlowMode::Inline ==> exists|replies: Seq<Reply>|
            replies.len() == children@.len() && answered(
                children@,
                replies,
                spec_setup(children@, base, expand),
            ) && match #[trigger] spec_fresh(locator).steps(
                children@,
                replies,
                spec_setup(children@, base, expand),
            ) {
                Ok(collected) => r is Ok && r->Ok_0@ == collected.output,
                Err(error) => r == Err::<Vec<Child>, SourceError>(error),
            },
        mode == FlowMode::Inline && r is Ok ==> exists|start: int, end: int, lines: Seq<Frame>|
            tag_bounded(children@, start, end) && r->Ok_0@ == (#[trigger] spec_fresh(locator).inline(
                children@,
                start,
                end,
                lines,
                style,
            )).output,
{
    let deferred = has_wraps(children);
    assert(children@.len() == children.len());
    let mut collector = Collector::new(children, locator, base, expand, deferred);
    let ghost fresh = collector@;
    let ghost setup = collector.setup();
    let outcome = collector.run(engine, mode, style);
    let ghost after = collector@;
    proof {
        assert(fresh == spec_fresh(locator));
        assert(setup == spec_setup(children@, base, expand));
        if mode != FlowMode::Inline {
            let replies = choose|replies: Seq<Reply>|
                replies.len() == children@.len() && answered(children@, replies, setup)
                    && #[trigger] fresh.steps(children@, replies, setup) == (
                match outcome {
                    Ok(_) => Ok::<Collected, SourceError>(after),
                    Err(error) => Err::<Collected, SourceError>(error),
                });
            assert(replies.len() == children@.len() && answered(
                children@,
                replies,
                spec_setup(children@, base, expand),
            ) && match #[trigger] spec_fresh(locator).steps(
                children@,
                replies,
                spec_setup(children@, base, expand),
            ) {
                Ok(collected) => outcome is Ok && after.output == collected.output,
                Err(error) => outcome == Err::<(), SourceError>(error),
            });
        }
    }
    let warnings = collector.warnings;
    let output = collector.output;
    let mut i: usize = 0;
    while i < warnings.len()
        invariant
            i <= warnings@.len(),
        decreases warnings@.len() - i,
    {
        engine.warn(warnings[i]);
        i += 1;
    }
    match outcome {
        Ok(_) => Ok(output),
        Err(error) => Err(error),
    }
}

/// Where no paragraph is laid out at once, the collection does not depend
/// on what the engine would answer.
pub proof fn lemma_replies_unused(
    start: Collected,
    children: Seq<Element>,
    one: Seq<Reply>,
    other: Seq<Reply>,
    setup: Setup,
)
    requires
        one.len() == children.len(),
        other.len() == children.len(),
        setup.deferred || forall|i: int| 0 <= i < children.len() ==> !((#[trigger] children[i]) is Par),
    ensures
        start.steps(children, one, setup) == start.steps(children, other, setup),
    decreases children.len(),
{
    if children.len() > 0 {
        lemma_replies_unused(start, children.drop_last(), one.drop_last(), other.drop_last(), setup);
    }
}

/// The first error ends a collection, whatever comes after it.
pub proof fn lemma_error_ends(
    start: Collected,
    children: Seq<Element>,
    replies: Seq<Reply>,
    setup: Setup,
    n: nat,
)
    requires
        n <= children.len(),
        replies.len() == children.len(),
        start.steps(children.take(n as int), replies.take(n as int), setup) is Err,
    ensures
        start.steps(children, replies, setup) == start.steps(
            children.take(n as int),
            replies.take(n as int),
            setup,
        ),
    decreases children.len() - n,
{
    if n == children.len() {
        assert(children.take(n as int) == children);
        assert(replies.take(n as int) == replies);
    } else {
        assert(children.take(n + 1 as int).drop_last() == children.take(n as int));
        assert(replies.take(n + 1 as int).drop_last() == replies.take(n as int));
        lemma_error_ends(start, children, replies, setup, n + 1);
    }
}

} // verus!
