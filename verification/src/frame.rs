//! What the flow knows of laid-out content: frames, tags and places in the
//! document.

use vstd::prelude::*;
use crate::abs::Abs;
use crate::geom::Point;
use crate::geom::Size;
use crate::geom::spec_size_zero;
use crate::geom::size_is_zero;

verus! {

/// A piece of content that is still to be laid out, by the handle under
/// which the engine knows it.
#[derive(Clone, Copy, Debug, PartialEq, Eq, Structural, Hash)]
pub struct Content {
    pub id: u64,
}

/// A place in the source text, for diagnostics.
#[derive(Clone, Copy, Debug, PartialEq, Eq, Structural, Hash)]
pub struct Span {
    pub id: u64,
}

/// The identity of an element in the document.
#[derive(Clone, Copy, Debug, PartialEq, Eq, Structural, Hash)]
pub struct Location {
    pub id: u128,
}

/// A marker that introspection leaves in the flow.
#[derive(Clone, Copy, Debug, PartialEq, Eq, Structural, Hash)]
pub struct Tag {
    pub id: u64,
}

/// What a frame holds, as far as the flow has to tell.
#[derive(Clone, Copy, Debug, PartialEq, Eq, Structural, Hash)]
pub enum FrameContent {
    /// Nothing at all.
    Empty,
    /// Only links and tags: nothing that shows.
    Markers,
    /// Something that shows.
    Visible,
}

/// A laid-out frame: its size, what kind of content it holds, and the handle
/// under which its owner finds the content itself.
#[derive(Clone, Copy, Debug, PartialEq, Eq, Hash)]
pub struct Frame {
    pub id: u64,
    pub size: Size,
    pub content: FrameContent,
    /// The element that the frame belongs to, where it has been attached to
    /// one.
    pub parent: Option<Location>,
}

impl Frame {
    pub open spec fn spec_is_empty(&self) -> bool {
        self.content == FrameContent::Empty
    }

    /// Takes no room and shows nothing.
    pub open spec fn spec_is_marker(&self) -> bool {
        self.size == spec_size_zero() && self.content != FrameContent::Visible
    }

    /// The frame with its parent set.
    pub open spec fn with_parent(self, parent: Location) -> Frame {
        Frame { id: self.id, size: self.size, content: self.content, parent: Some(parent) }
    }

    pub fn new(id: u64, size: Size, content: FrameContent) -> (r: Frame)
        ensures
            r == (Frame { id, size, content, parent: None }),
    {
        Frame { id, size, content, parent: None }
    }

    pub fn width(&self) -> (r: Abs)
        ensures
            r == self.size.x,
    {
        self.size.x
    }

    pub fn height(&self) -> (r: Abs)
        ensures
            r == self.size.y,
    {
        self.size.y
    }

    pub fn size(&self) -> (r: Size)
        ensures
            r == self.size,
    {
        self.size
    }

    /// Whether the frame holds nothing at all.
    pub fn is_empty(&self) -> (r: bool)
        ensures
            r == self.spec_is_empty(),
    {
        match self.content {
            FrameContent::Empty => true,
            _ => false,
        }
    }

    /// Whether the frame takes no room and holds nothing but links and tags.
    pub fn is_marker(&self) -> (r: bool)
        ensures
            r == self.spec_is_marker(),
    {
        let shows = match self.content {
            FrameContent::Visible => true,
            _ => false,
        };
        size_is_zero(self.size) && !shows
    }

    /// Attaches the frame to the element it belongs to.
    pub fn set_parent(&mut self, parent: Location)
        ensures
            *final(self) == old(self).with_parent(parent),
    {
        self.parent = Some(parent);
    }
}

/// What a finished region holds at one position.
#[derive(Clone, Copy, Debug, PartialEq, Eq, Hash)]
pub enum Piece {
    /// A tag, which takes no room.
    Tag(Tag),
    /// A frame.
    Frame(Frame),
}

/// A piece and where its top left corner lies.
#[derive(Clone, Copy, Debug, PartialEq, Eq, Hash)]
pub struct Placement {
    pub pos: Point,
    pub piece: Piece,
}

/// The frame of a finished region: its size and its pieces, in the order in
/// which the flow produced them.
#[derive(Clone, Debug, PartialEq, Eq)]
pub struct Page {
    pub size: Size,
    pub pieces: Vec<Placement>,
}

} // verus!
