//! What the flow asks of its surroundings: an engine that lays out
//! paragraphs, blocks and frames, and a composer that owns what is inserted
//! into a region from outside the flow. Nothing is assumed of either: what
//! the flow guarantees, it guarantees whatever they answer.

use vstd::prelude::*;
use crate::abs::Abs;
use crate::child::MastheadChild;
use crate::child::PlacedChild;
use crate::child::WrapChild;
use crate::cutout::RegionCutout;
use crate::diag::SourceError;
use crate::diag::Stop;
use crate::elements::BlockElem;
use crate::elements::Element;
use crate::elements::ParElem;
use crate::elements::ParSituation;
use crate::frame::Content;
use crate::frame::Frame;
use crate::frame::Span;
use crate::geom::Alignment;
use crate::geom::Region;
use crate::geom::Regions;
use crate::geom::Size;

verus! {

/// A handle by which introspection tells the elements of a flow apart.
#[derive(Clone, Copy, Debug, PartialEq, Eq, Structural, Hash)]
pub struct Locator {
    /// The locator of the flow itself.
    pub base: u64,
    /// The number of the element within the flow; zero for the flow itself.
    pub index: u64,
}

impl Locator {
    pub fn new(base: u64) -> (r: Locator)
        ensures
            r == (Locator { base, index: 0 }),
    {
        Locator { base, index: 0 }
    }

    /// A source of locators for the elements of this flow.
    pub fn split(self) -> (r: SplitLocator)
        ensures
            r == (SplitLocator { base: self.base, handed_out: 0 }),
    {
        SplitLocator { base: self.base, handed_out: 0 }
    }

    /// The locator for laying the same element out once more.
    pub fn relayout(self) -> (r: Locator)
        ensures
            r == self,
    {
        self
    }
}

/// Hands out one locator after another, no two of them alike.
#[derive(Clone, Copy, Debug, PartialEq, Eq, Structural, Hash)]
pub struct SplitLocator {
    pub base: u64,
    /// How many locators have been handed out.
    pub handed_out: u64,
}

impl SplitLocator {
    pub open spec fn spec_next(self) -> Locator {
        Locator { base: self.base, index: (self.handed_out + 1) as u64 }
    }

    /// The next locator.
    pub fn next(&mut self) -> (r: Locator)
        requires
            old(self).handed_out < u64::MAX,
        ensures
            r == old(self).spec_next(),
            final(self).base == old(self).base,
            final(self).handed_out == old(self).handed_out + 1,
    {
        self.handed_out = self.handed_out + 1;
        Locator { base: self.base, index: self.handed_out }
    }
}

/// The cutouts beside a paragraph, and the height in the region at which
/// the paragraph starts.
#[derive(Clone, Copy, Debug)]
pub struct InlineContext<'a> {
    pub cutouts: &'a [RegionCutout],
    pub y_offset: Abs,
}

impl<'a> InlineContext<'a> {
    pub fn new(cutouts: &'a [RegionCutout], y_offset: Abs) -> (r: InlineContext<'a>)
        ensures
            r.cutouts@ == cutouts@,
            r.y_offset == y_offset,
    {
        InlineContext { cutouts, y_offset }
    }
}

/// The frames of a block that was laid out into a run of regions, one
/// frame for each region it reached. There is always a first frame.
#[derive(Debug)]
pub struct Fragment {
    frames: Vec<Frame>,
}

impl View for Fragment {
    type V = Seq<Frame>;

    closed spec fn view(&self) -> Seq<Frame> {
        self.frames@
    }
}

impl Fragment {
    #[verifier::type_invariant]
    spec fn has_first(&self) -> bool {
        self.frames@.len() > 0
    }

    /// A fragment of one frame.
    pub fn frame(frame: Frame) -> (r: Fragment)
        ensures
            r@ == seq![frame],
    {
        let mut frames: Vec<Frame> = Vec::new();
        frames.push(frame);
        assert(frames@ =~= seq![frame]);
        Fragment { frames }
    }

    /// A fragment of a first frame and those that follow it.
    pub fn frames(first: Frame, rest: Vec<Frame>) -> (r: Fragment)
        ensures
            r@ == seq![first] + rest@,
    {
        let mut frames: Vec<Frame> = Vec::new();
        frames.push(first);
        let mut i: usize = 0;
        while i < rest.len()
            invariant
                i <= rest.len(),
                frames@ == seq![first] + rest@.take(i as int),
            decreases rest.len() - i,
        {
            frames.push(rest[i]);
            assert(frames@ =~= seq![first] + rest@.take(i + 1));
            i += 1;
        }
        assert(rest@.take(i as int) == rest@);
        Fragment { frames }
    }

    /// The number of frames, which is never zero.
    pub fn len(&self) -> (r: usize)
        ensures
            r == self@.len(),
            r > 0,
    {
        proof {
            use_type_invariant(&self);
        }
        self.frames.len()
    }

    pub fn get(&self, i: usize) -> (r: Frame)
        requires
            i < self@.len(),
        ensures
            r == self@[i as int],
    {
        self.frames[i]
    }

    pub fn first(&self) -> (r: Frame)
        ensures
            self@.len() > 0,
            r == self@[0],
    {
        proof {
            use_type_invariant(&self);
        }
        self.frames[0]
    }
}

/// An element that the collector passed over.
#[derive(Clone, Copy, Debug, PartialEq, Eq, Hash)]
pub struct Warning {
    pub span: Span,
    /// The name of the element.
    pub name: &'static str,
}

/// The words with which every such warning ends.
pub open spec fn ignored_suffix() -> Seq<char> {
    " was ignored during paged export"@
}

impl Warning {
    /// The text of the warning.
    pub fn message(&self) -> (text: String)
        ensures
            text@ == self.name@ + ignored_suffix(),
    {
        String::from_str(self.name).concat(" was ignored during paged export")
    }
}

/// The engine: it lays out what the flow does not lay out itself.
pub trait Engine {
    /// Breaks a paragraph into lines of the width of `base`.
    fn layout_par(
        &mut self,
        elem: &ParElem,
        locator: Locator,
        base: Size,
        expand: bool,
        situation: ParSituation,
    ) -> Result<Vec<Frame>, SourceError>;

    /// Breaks a paragraph into lines beside the cutouts of the context,
    /// where there is one.
    fn layout_par_with_context(
        &mut self,
        elem: &ParElem,
        locator: Locator,
        base: Size,
        expand: bool,
        situation: ParSituation,
        context: Option<InlineContext<'_>>,
    ) -> Result<Vec<Frame>, SourceError>;

    /// Breaks inline content into lines.
    fn layout_inline(
        &mut self,
        children: &[Element],
        locator: Locator,
        base: Size,
        expand: bool,
    ) -> Result<Vec<Frame>, SourceError>;

    /// Lays out a block that does not break.
    fn layout_single_block(&mut self, elem: &BlockElem, locator: Locator, region: Region) -> Result<
        Frame,
        SourceError,
    >;

    /// Lays out a block that can break across the regions.
    fn layout_multi_block(
        &mut self,
        elem: &BlockElem,
        locator: Locator,
        regions: Regions<'_>,
    ) -> Result<Fragment, SourceError>;

    /// Lays out content into one frame, under the given alignment where
    /// there is one.
    fn layout_frame(
        &mut self,
        body: Content,
        locator: Locator,
        align: Option<Alignment>,
        region: Region,
    ) -> Result<Frame, SourceError>;

    /// Takes note of a warning.
    fn warn(&mut self, warning: Warning);
}

/// The composer: it drives the distribution region by region and owns the
/// floats, footnotes and cutouts of the region.
pub trait Composer: Engine {
    /// The cutouts of the current column.
    fn column_cutouts(&self) -> Vec<RegionCutout>;

    /// Handles the footnotes in a frame that is about to enter the region.
    /// `flow_need` is the height that the frame takes in the flow.
    fn footnotes(
        &mut self,
        regions: &Regions<'_>,
        frame: &Frame,
        flow_need: Abs,
        breakable: bool,
        migratable: bool,
    ) -> Result<(), Stop>;

    /// Handles a floating element. The answer is whether the float has to
    /// wait for a later region.
    fn float(
        &mut self,
        placed: &mut PlacedChild,
        regions: &Regions<'_>,
        clearance: bool,
        migratable: bool,
    ) -> Result<bool, Stop>;

    /// Handles a wrap that starts at the height `y` of the region.
    fn wrap(&mut self, wrap: &mut WrapChild, regions: &Regions<'_>, y: Abs, has_frame: bool) -> Result<
        (),
        Stop,
    >;

    /// Handles a masthead that starts at the height `y` of the region.
    fn masthead(
        &mut self,
        masthead: &mut MastheadChild,
        regions: &Regions<'_>,
        y: Abs,
        has_frame: bool,
    ) -> Result<(), Stop>;

    /// The width of what has been inserted into the region.
    fn insertion_width(&self) -> Abs;
}

} // verus!
