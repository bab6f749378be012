//! Errors, warnings and the signals that end the work on a region.

use vstd::prelude::*;
use crate::frame::Span;
use crate::geom::PlacementScope;

verus! {

/// What went wrong.
#[derive(Clone, Copy, Debug, PartialEq, Eq, Structural, Hash)]
pub enum ErrorKind {
    /// A page break inside a container.
    PagebreakInContainer,
    /// A floating placement whose vertical alignment is neither automatic
    /// nor top nor bottom.
    FloatAlignment,
    /// A placement that does not float and names no alignment.
    AutoPlacement,
    /// A placement against the parent that does not float.
    ParentPlacement,
    /// A block that breaks across regions yielded no frame for a region
    /// that it had reached when it was laid out before.
    MissingFrame,
    /// An error that the engine reported, under the engine's own code.
    Engine(u64),
}

/// A fatal error: it ends the flow.
#[derive(Clone, Copy, Debug, PartialEq, Eq, Structural, Hash)]
pub struct SourceError {
    pub span: Span,
    pub kind: ErrorKind,
}

impl SourceError {
    pub open spec fn spec_message(&self) -> Option<&'static str> {
        match self.kind {
            ErrorKind::PagebreakInContainer => Some(
                "pagebreaks are not allowed inside of containers",
            ),
            ErrorKind::FloatAlignment => Some(
                "vertical floating placement must be `auto`, `top`, or `bottom`",
            ),
            ErrorKind::AutoPlacement => Some(
                "automatic positioning is only available for floating placement",
            ),
            ErrorKind::ParentPlacement => Some(
                "parent-scoped positioning is currently only available for floating placement",
            ),
            ErrorKind::MissingFrame => Some("a block yielded fewer frames than it had before"),
            ErrorKind::Engine(_) => None,
        }
    }

    pub open spec fn spec_hint(&self) -> Option<&'static str> {
        match self.kind {
            ErrorKind::PagebreakInContainer => Some("try using a `#colbreak()` instead"),
            ErrorKind::FloatAlignment => None,
            ErrorKind::AutoPlacement => Some(
                "you can enable floating placement with `place(float: true, ..)`",
            ),
            ErrorKind::ParentPlacement => Some(
                "you can enable floating placement with `place(float: true, ..)`",
            ),
            ErrorKind::MissingFrame => None,
            ErrorKind::Engine(_) => None,
        }
    }

    pub fn new(span: Span, kind: ErrorKind) -> (r: SourceError)
        ensures
            r == (SourceError { span, kind }),
    {
        SourceError { span, kind }
    }

    /// The text of the error; an error of the engine has its text there.
    pub fn message(&self) -> (r: Option<&'static str>)
        ensures
            r == self.spec_message(),
    {
        match self.kind {
            ErrorKind::PagebreakInContainer => Some(
                "pagebreaks are not allowed inside of containers",
            ),
            ErrorKind::FloatAlignment => Some(
                "vertical floating placement must be `auto`, `top`, or `bottom`",
            ),
            ErrorKind::AutoPlacement => Some(
                "automatic positioning is only available for floating placement",
            ),
            ErrorKind::ParentPlacement => Some(
                "parent-scoped positioning is currently only available for floating placement",
            ),
            ErrorKind::MissingFrame => Some("a block yielded fewer frames than it had before"),
            ErrorKind::Engine(_) => None,
        }
    }

    /// What the author can do about the error, where there is advice.
    pub fn hint(&self) -> (r: Option<&'static str>)
        ensures
            r == self.spec_hint(),
    {
        match self.kind {
            ErrorKind::PagebreakInContainer => Some("try using a `#colbreak()` instead"),
            ErrorKind::FloatAlignment => None,
            ErrorKind::AutoPlacement => Some(
                "you can enable floating placement with `place(float: true, ..)`",
            ),
            ErrorKind::ParentPlacement => Some(
                "you can enable floating placement with `place(float: true, ..)`",
            ),
            ErrorKind::MissingFrame => None,
            ErrorKind::Engine(_) => None,
        }
    }
}

/// Why the work on a region ends before its children run out.
#[derive(Clone, Copy, Debug, PartialEq, Eq, Structural, Hash)]
pub enum Stop {
    /// The region is done. The flag is set where a column break asked for
    /// it, so that the region ends even if nothing stands in it.
    Finish(bool),
    /// Something was inserted that changes the room in the given scope: the
    /// region has to be laid out again.
    Relayout(PlacementScope),
    /// A fatal error.
    Error(SourceError),
}

} // verus!
