//! Vertical extents of glyphs and of shaped words.

use vstd::prelude::*;

verus! {

/// One font design unit, in the steps in which coordinates are counted.
pub const UNIT: i64 = 65536;

/// The lowest and the highest point reached on the vertical axis.
///
/// Coordinates are counted in steps of 1/65536 of a font design unit, the
/// fixed-point format of font files; whoever measures an outline rounds its
/// bounds outward to a step. A well-formed value has `lowest <= highest`.
#[derive(Debug, Clone, Copy, PartialEq, Eq, Hash)]
pub struct VerticalExtremes {
    pub lowest: i64,
    pub highest: i64,
}

impl VerticalExtremes {
    /// Whether the two bounds are in order.
    pub open spec fn wf(self) -> bool {
        self.lowest <= self.highest
    }

    /// The extent that covers both `self` and `other`.
    pub open spec fn spec_merge(self, other: Self) -> Self {
        VerticalExtremes {
            lowest: if self.lowest <= other.lowest { self.lowest } else { other.lowest },
            highest: if self.highest >= other.highest { self.highest } else { other.highest },
        }
    }

    /// The extent moved up by `offset` (down where it is negative).
    pub open spec fn spec_shifted(self, offset: i64) -> Self {
        VerticalExtremes {
            lowest: (self.lowest + offset) as i64,
            highest: (self.highest + offset) as i64,
        }
    }

    /// Pairs the two bounds, which must be in order.
    pub fn new(lowest: i64, highest: i64) -> (r: Self)
        requires
            lowest <= highest,
        ensures
            r.lowest == lowest,
            r.highest == highest,
            r.wf(),
    {
        VerticalExtremes { lowest, highest }
    }

    /// The lower bound.
    pub fn lowest(&self) -> (r: i64)
        ensures
            r == self.lowest,
    {
        self.lowest
    }

    /// The upper bound.
    pub fn highest(&self) -> (r: i64)
        ensures
            r == self.highest,
    {
        self.highest
    }

    /// Combines two extents: the lower of the two lower bounds, the higher of
    /// the two upper bounds.
    pub fn merge(self, other: Self) -> (r: Self)
        ensures
            r == self.spec_merge(other),
            self.wf() || other.wf() ==> r.wf(),
    {
        VerticalExtremes {
            lowest: if self.lowest <= other.lowest { self.lowest } else { other.lowest },
            highest: if self.highest >= other.highest { self.highest } else { other.highest },
        }
    }
}

/// A word and the vertical extent it reached when shaped.
#[derive(Debug, Clone, PartialEq, Eq, Hash)]
pub struct WordExtremes {
    /// The word that was shaped.
    pub word: String,
    /// The lowest and highest point reached while shaping.
    pub extremes: VerticalExtremes,
}

impl WordExtremes {
    /// Pairs a word with its extent.
    pub fn new(word: String, extremes: VerticalExtremes) -> (r: Self)
        ensures
            r.word == word,
            r.extremes == extremes,
    {
        WordExtremes { word, extremes }
    }

    /// The lower bound of the word's extent.
    pub fn lowest(&self) -> (r: i64)
        ensures
            r == self.extremes.lowest,
    {
        self.extremes.lowest
    }

    /// The upper bound of the word's extent.
    pub fn highest(&self) -> (r: i64)
        ensures
            r == self.extremes.highest,
    {
        self.extremes.highest
    }

    /// Of two words the one that reaches lower; `self` where they reach
    /// equally low.
    pub fn lower(self, other: Self) -> (r: Self)
        ensures
            r == if self.extremes.lowest <= other.extremes.lowest { self } else { other },
    {
        if self.extremes.lowest <= other.extremes.lowest {
            self
        } else {
            other
        }
    }

    /// Of two words the one that reaches higher; `self` where they reach
    /// equally high.
    pub fn higher(self, other: Self) -> (r: Self)
        ensures
            r == if self.extremes.highest >= other.extremes.highest { self } else { other },
    {
        if self.extremes.highest >= other.extremes.highest {
            self
        } else {
            other
        }
    }

    /// An equal value of its own.
    pub fn duplicate(&self) -> (r: Self)
        ensures
            r == *self,
    {
        WordExtremes { word: self.word.clone(), extremes: self.extremes }
    }
}

} // verus!
