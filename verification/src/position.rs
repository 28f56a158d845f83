//! Positions and ranges in a document.

use vstd::prelude::*;

verus! {

/// A place in a document: a line, counted from zero, and a column in that
/// line, counted in Unicode scalar values from zero.
#[derive(Clone, Copy, Debug, PartialEq, Eq, Structural)]
pub struct Position {
    pub line: u32,
    pub character: u32,
}

/// A half-open stretch of a document, from `start` up to but not including
/// `end`.
#[derive(Clone, Copy, Debug, PartialEq, Eq, Structural)]
pub struct Range {
    pub start: Position,
    pub end: Position,
}

impl Position {
    /// Document order: `self` is not behind `other`.
    pub open spec fn at_or_before(self, other: Position) -> bool {
        self.line < other.line || (self.line == other.line && self.character <= other.character)
    }

    /// Whether `self` comes no later than `other` in document order.
    pub fn precedes(&self, other: &Position) -> (r: bool)
        ensures
            r == self.at_or_before(*other),
    {
        self.line < other.line || (self.line == other.line && self.character <= other.character)
    }
}

impl Range {
    /// A range is ordered when its start is not behind its end.
    pub open spec fn ordered(self) -> bool {
        self.start.at_or_before(self.end)
    }

    /// Whether the start is not behind the end.
    pub fn is_ordered(&self) -> (r: bool)
        ensures
            r == self.ordered(),
    {
        self.start.precedes(&self.end)
    }
}

} // verus!
