//! The vertical bounds of every glyph at one location, and the extent of
//! a shaped word.

use vstd::prelude::*;
use vstd::std_specs::hash::*;
use std::collections::HashMap;
use crate::errors::{FontHeightError, SkrifaDrawError};
use crate::extremes::{VerticalExtremes, UNIT};
use crate::locations::{extras_of, Location};

verus! {

/// The glyph that a shaper puts where the font has none for a character.
pub const NOTDEF: u32 = 0;

/// The bounds of a cached glyph lie between this limit and its negative, so
/// that any shaping offset can be added to them.
pub const COORD_LIMIT: i64 = 0x3FFF_FFFF_FFFF_FFFF;

/// A glyph of a shaped word: which glyph it is and how far shaping moved it
/// up, in font design units.
#[derive(Debug, Clone, Copy, PartialEq, Eq, Structural)]
pub struct ShapedGlyph {
    pub glyph_id: u32,
    pub y_offset: i32,
}

/// What drawing one glyph's outline gave.
#[derive(Debug)]
pub struct DrawnGlyph {
    /// The glyph.
    pub glyph_id: u32,
    /// Its vertical bounds, or why it could not be drawn.
    pub outcome: Result<VerticalExtremes, String>,
}

/// Whether the bounds are in order and within the limit of the cache.
pub open spec fn cacheable(e: VerticalExtremes) -> bool {
    -COORD_LIMIT <= e.lowest <= e.highest <= COORD_LIMIT
}

/// Whether the glyph was drawn and its bounds can be cached.
pub open spec fn usable(g: DrawnGlyph) -> bool {
    g.outcome.is_ok() && cacheable(g.outcome.unwrap())
}

/// The place of the first of `glyphs` that is not usable, or their number
/// where all are.
pub open spec fn first_unusable(glyphs: Seq<DrawnGlyph>, from: int) -> int
    decreases glyphs.len() - from,
{
    if from < 0 || from >= glyphs.len() || !usable(glyphs[from]) {
        from
    } else {
        first_unusable(glyphs, from + 1)
    }
}

/// The bounds of the first `n` of `glyphs`, by glyph; of a glyph that was
/// drawn twice the later bounds.
pub open spec fn bounds_of(glyphs: Seq<DrawnGlyph>, n: int) -> Map<u32, VerticalExtremes>
    decreases n,
{
    if n <= 0 {
        Map::empty()
    } else {
        bounds_of(glyphs, n - 1).insert(glyphs[n - 1].glyph_id, glyphs[n - 1].outcome.unwrap())
    }
}

/// Whether `e` says why no bounds were collected: that the location sets
/// axes which the font does not have, and which; else which glyph is the
/// first that could not be drawn, and why, or the first whose bounds cannot
/// be cached.
pub open spec fn cache_failure(
    e: FontHeightError,
    entries: Seq<(u32, i32)>,
    font_axes: Seq<u32>,
    glyphs: Seq<DrawnGlyph>,
) -> bool {
    let at = first_unusable(glyphs, 0);
    match e {
        FontHeightError::MismatchedAxes(e) => e.extras@ == extras_of(entries, font_axes)
            && e.extras@.len() > 0,
        FontHeightError::Drawing(e) => {
            &&& extras_of(entries, font_axes).len() == 0
            &&& at < glyphs.len()
            &&& glyphs[at].outcome.is_err()
            &&& e.glyph_id == glyphs[at].glyph_id
            &&& e.reason == glyphs[at].outcome.unwrap_err()
        },
        FontHeightError::GlyphBounds(id) => {
            &&& extras_of(entries, font_axes).len() == 0
            &&& at < glyphs.len()
            &&& glyphs[at].outcome.is_ok()
            &&& id == glyphs[at].glyph_id
        },
        _ => false,
    }
}

/// Whether one of `glyphs` is the glyph for a missing character.
pub open spec fn has_notdef(glyphs: Seq<ShapedGlyph>) -> bool {
    exists|i: int| 0 <= i < glyphs.len() && (#[trigger] glyphs[i]).glyph_id == NOTDEF
}

/// Whether `bounds` holds every one of `glyphs`.
pub open spec fn covered(glyphs: Seq<ShapedGlyph>, bounds: Map<u32, VerticalExtremes>) -> bool {
    forall|i: int| 0 <= i < glyphs.len() ==> bounds.contains_key((#[trigger] glyphs[i]).glyph_id)
}

/// The bounds of a glyph where shaping placed it.
pub open spec fn placed(g: ShapedGlyph, bounds: Map<u32, VerticalExtremes>) -> VerticalExtremes {
    bounds[g.glyph_id].spec_shifted((g.y_offset * UNIT) as i64)
}

/// The extent of the first `n` glyphs, `n` at least 1: the lowest of their
/// lower bounds and the highest of their upper bounds, each where shaping
/// placed it.
pub open spec fn span(glyphs: Seq<ShapedGlyph>, bounds: Map<u32, VerticalExtremes>, n: int)
    -> VerticalExtremes
    decreases n,
{
    if n <= 1 {
        placed(glyphs[0], bounds)
    } else {
        span(glyphs, bounds, n - 1).spec_merge(placed(glyphs[n - 1], bounds))
    }
}

/// Whether a shaped word can be measured: it has a glyph, and none for a
/// missing character.
pub open spec fn measurable(glyphs: Seq<ShapedGlyph>) -> bool {
    glyphs.len() > 0 && !has_notdef(glyphs)
}

/// The extent of a shaped word, or `None` for a word that cannot be
/// measured.
pub open spec fn word_extent(glyphs: Seq<ShapedGlyph>, bounds: Map<u32, VerticalExtremes>)
    -> Option<VerticalExtremes> {
    if measurable(glyphs) {
        Some(span(glyphs, bounds, glyphs.len() as int))
    } else {
        None
    }
}

/// The vertical bounds of all the glyphs of a font at one location.
#[derive(Debug)]
pub struct InstanceExtremes {
    bounds: HashMap<u32, VerticalExtremes>,
}

impl InstanceExtremes {
    /// The bounds, by glyph.
    pub closed spec fn bounds(&self) -> Map<u32, VerticalExtremes> {
        self.bounds@
    }

    /// Whether all the bounds are in order and within the limit.
    pub open spec fn wf(&self) -> bool {
        forall|id: u32| #[trigger] self.bounds().contains_key(id) ==> cacheable(self.bounds()[id])
    }

    /// Collects the bounds of the glyphs that were drawn at `location`, for
    /// a font whose axes have the tags `font_axes`.
    ///
    /// Fails if the location sets an axis that the font does not have; else
    /// with the first glyph that could not be drawn, or whose bounds cannot
    /// be cached. Nothing is cached for part of a font.
    pub fn new(location: &Location, font_axes: &Vec<u32>, glyphs: Vec<DrawnGlyph>) -> (r: Result<
        Self,
        FontHeightError,
    >)
        ensures
            r.is_ok() == (extras_of(location.entries(), font_axes@).len() == 0 && first_unusable(
                glyphs@,
                0,
            ) == glyphs@.len()),
            r.is_ok() ==> r.unwrap().wf() && r.unwrap().bounds() == bounds_of(
                glyphs@,
                glyphs@.len() as int,
            ),
            r.is_err() ==> cache_failure(r.unwrap_err(), location.entries(), font_axes@, glyphs@),
    {
        broadcast use group_hash_axioms;

        match location.validate_for(font_axes) {
            Err(e) => {
                return Err(FontHeightError::MismatchedAxes(e));
            },
            Ok(()) => {},
        }
        let mut pending = glyphs;
        let n: usize = pending.len();
        let mut bounds: HashMap<u32, VerticalExtremes> = HashMap::new();
        let mut rest: Vec<DrawnGlyph> = Vec::new();
        // Taken from the back, so that each glyph is moved out once.
        let mut i: usize = n;
        while i > 0
            invariant
                i <= n,
                n == glyphs@.len(),
                pending@ == glyphs@.take(i as int),
                rest@.len() == n - i,
                forall|k: int| 0 <= k < n - i ==> rest@[k] == glyphs@[n - 1 - k],
            decreases i,
        {
            let g = pending.pop().unwrap();
            rest.push(g);
            i = i - 1;
            assert(pending@ =~= glyphs@.take(i as int));
        }
        let mut k: usize = 0;
        while k < n
            invariant
                k <= n,
                n == glyphs@.len(),
                extras_of(location.entries(), font_axes@).len() == 0,
                rest@.len() == n - k,
                forall|j: int| 0 <= j < n - k ==> rest@[j] == glyphs@[n - 1 - j],
                first_unusable(glyphs@, 0) == first_unusable(glyphs@, k as int),
                bounds@ == bounds_of(glyphs@, k as int),
                forall|id: u32| #[trigger] bounds@.contains_key(id) ==> cacheable(bounds@[id]),
            decreases n - k,
        {
            let g = rest.pop().unwrap();
            assert(g == glyphs@[k as int]);
            let DrawnGlyph { glyph_id, outcome } = g;
            match outcome {
                Err(reason) => {
                    return Err(FontHeightError::Drawing(SkrifaDrawError { glyph_id, reason }));
                },
                Ok(e) => {
                    if -COORD_LIMIT <= e.lowest && e.lowest <= e.highest && e.highest
                        <= COORD_LIMIT {
                        bounds.insert(glyph_id, e);
                    } else {
                        return Err(FontHeightError::GlyphBounds(glyph_id));
                    }
                },
            }
            k = k + 1;
        }
        Ok(InstanceExtremes { bounds })
    }

    /// The bounds of a glyph, if the font has it.
    pub fn get(&self, glyph_id: u32) -> (r: Option<VerticalExtremes>)
        ensures
            r == if self.bounds().contains_key(glyph_id) {
                Some(self.bounds()[glyph_id])
            } else {
                None::<VerticalExtremes>
            },
    {
        broadcast use group_hash_axioms;

        match self.bounds.get(&glyph_id) {
            Some(e) => Some(*e),
            None => None,
        }
    }

    /// Whether a shaped word can be measured: whether it has a glyph, and
    /// none for a missing character.
    pub fn is_measurable(glyphs: &Vec<ShapedGlyph>) -> (r: bool)
        ensures
            r == measurable(glyphs@),
    {
        let mut i: usize = 0;
        while i < glyphs.len()
            invariant
                i <= glyphs.len(),
                forall|k: int| 0 <= k < i ==> (#[trigger] glyphs@[k]).glyph_id != NOTDEF,
            decreases glyphs.len() - i,
        {
            if glyphs[i].glyph_id == NOTDEF {
                return false;
            }
            i = i + 1;
        }
        glyphs.len() > 0
    }

    /// Whether the bounds of every one of `glyphs` are known.
    pub fn covers(&self, glyphs: &Vec<ShapedGlyph>) -> (r: bool)
        ensures
            r == covered(glyphs@, self.bounds()),
    {
        let mut i: usize = 0;
        while i < glyphs.len()
            invariant
                i <= glyphs.len(),
                forall|k: int| 0 <= k < i ==> self.bounds().contains_key((#[trigger] glyphs@[k]).glyph_id),
            decreases glyphs.len() - i,
        {
            if self.get(glyphs[i].glyph_id).is_none() {
                return false;
            }
            i = i + 1;
        }
        true
    }

    /// The extent of a shaped word: each glyph's bounds moved by its offset,
    /// and of these the lowest lower bound and the highest upper bound.
    ///
    /// A word without glyphs, or with a glyph for a missing character, has
    /// no extent. The bounds of every glyph of any other word must be known.
    pub fn word_extremes(&self, glyphs: &Vec<ShapedGlyph>) -> (r: Option<VerticalExtremes>)
        requires
            self.wf(),
            measurable(glyphs@) ==> covered(glyphs@, self.bounds()),
        ensures
            r == word_extent(glyphs@, self.bounds()),
            r.is_some() ==> r.unwrap().wf(),
    {
        if glyphs.len() == 0 {
            return None;
        }
        let mut i: usize = 0;
        while i < glyphs.len()
            invariant
                i <= glyphs.len(),
                forall|k: int| 0 <= k < i ==> (#[trigger] glyphs@[k]).glyph_id != NOTDEF,
            decreases glyphs.len() - i,
        {
            if glyphs[i].glyph_id == NOTDEF {
                return None;
            }
            i = i + 1;
        }
        assert(measurable(glyphs@));
        let mut extent = self.place(&glyphs[0]);
        let mut j: usize = 1;
        while j < glyphs.len()
            invariant
                1 <= j <= glyphs.len(),
                self.wf(),
                covered(glyphs@, self.bounds()),
                extent == span(glyphs@, self.bounds(), j as int),
                extent.wf(),
            decreases glyphs.len() - j,
        {
            let next = self.place(&glyphs[j]);
            extent = extent.merge(next);
            j = j + 1;
        }
        Some(extent)
    }

    /// The bounds of a glyph where shaping placed it.
    fn place(&self, glyph: &ShapedGlyph) -> (r: VerticalExtremes)
        requires
            self.wf(),
            self.bounds().contains_key(glyph.glyph_id),
        ensures
            r == placed(*glyph, self.bounds()),
            r.wf(),
    {
        let e = self.get(glyph.glyph_id).unwrap();
        let shift: i64 = glyph.y_offset as i64 * UNIT;
        VerticalExtremes { lowest: e.lowest + shift, highest: e.highest + shift }
    }
}

} // verus!
