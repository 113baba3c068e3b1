//! Source positions: a `Location` is a 0-indexed line/column pair, ordered
//! lexicographically, and a `Range` is a half-open interval of locations.

use vstd::prelude::*;

verus! {

#[derive(Debug, Clone, Copy, PartialEq, Eq, Structural, PartialOrd, Ord)]
pub struct Location {
    /// A 0-indexed line number.
    pub line: u32,
    /// A 0-indexed column number.
    pub col: u32,
}

/// Lexicographic order on locations: by line, then by column.
pub open spec fn loc_le(a: Location, b: Location) -> bool {
    a.line < b.line || (a.line == b.line && a.col <= b.col)
}

pub open spec fn loc_min(a: Location, b: Location) -> Location {
    if loc_le(a, b) {
        a
    } else {
        b
    }
}

pub open spec fn loc_max(a: Location, b: Location) -> Location {
    if loc_le(a, b) {
        b
    } else {
        a
    }
}

impl Location {
    pub fn new(line: u32, col: u32) -> (r: Self)
        ensures
            r == (Location { line, col }),
    {
        Self { line, col }
    }

    /// The earlier of two locations, in lexicographic order.
    pub fn min(self, other: Location) -> (r: Location)
        ensures
            r == loc_min(self, other),
    {
        if self.line < other.line {
            self
        } else if self.line == other.line && self.col <= other.col {
            self
        } else {
            other
        }
    }

    /// The later of two locations, in lexicographic order.
    pub fn max(self, other: Location) -> (r: Location)
        ensures
            r == loc_max(self, other),
    {
        if self.line < other.line {
            other
        } else if self.line == other.line && self.col <= other.col {
            other
        } else {
            self
        }
    }
}

#[derive(Debug, Clone, Copy, PartialEq, Eq, Structural, PartialOrd, Ord)]
pub struct Range {
    /// The start of this range of characters, inclusive.
    pub start: Location,
    /// The end of this range of characters, exclusive.
    pub end: Location,
}

impl Range {
    /// The smallest range covering a single location: one column wide.
    pub open spec fn spec_from_location(location: Location) -> Range
        recommends
            location.col < u32::MAX,
    {
        Range {
            start: location,
            end: Location { line: location.line, col: (location.col + 1) as u32 },
        }
    }

    /// Converts a single location to the unit range starting there.
    pub fn from_location(location: Location) -> (r: Self)
        requires
            location.col < u32::MAX,
        ensures
            r == Self::spec_from_location(location),
    {
        Self { start: location, end: Location { line: location.line, col: location.col + 1 } }
    }

    /// The smallest range covering both arguments.
    pub open spec fn spec_union(self, other: Range) -> Range {
        Range { start: loc_min(self.start, other.start), end: loc_max(self.end, other.end) }
    }

    /// Returns the smallest range covering both `self` and `other`.
    pub fn union(self, other: Range) -> (r: Range)
        ensures
            r == self.spec_union(other),
    {
        Range { start: self.start.min(other.start), end: self.end.max(other.end) }
    }
}

/// Taking the union of ranges does not depend on the order of the arguments.
pub proof fn lemma_union_commutative(a: Range, b: Range)
    ensures
        a.spec_union(b) == b.spec_union(a),
{
}

/// Taking the union of three ranges does not depend on the grouping.
pub proof fn lemma_union_associative(a: Range, b: Range, c: Range)
    ensures
        a.spec_union(b.spec_union(c)) == a.spec_union(b).spec_union(c),
{
}

/// The union of a range with itself is that range.
pub proof fn lemma_union_idempotent(a: Range)
    ensures
        a.spec_union(a) == a,
{
}

} // verus!
