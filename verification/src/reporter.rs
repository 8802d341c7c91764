//! From shaped words to a report: the most extreme words of a word list at
//! one location.

use vstd::prelude::*;
use crate::errors::FontHeightError;
use crate::exemplars::{handed_over, ExemplarCollector, Exemplars};
use crate::extremes::{VerticalExtremes, WordExtremes};
use crate::instance::{
    covered, measurable, word_extent, DrawnGlyph, InstanceExtremes, ShapedGlyph,
};
use crate::locations::Location;
use crate::ranking::{most_extreme, Side};
use crate::word_lists::WordList;

verus! {

/// A word and the glyphs that shaping made of it, in shaping order.
#[derive(Debug)]
pub struct ShapedWord {
    pub word: String,
    pub glyphs: Vec<ShapedGlyph>,
}

/// Whether the bounds of every glyph of every measurable word are known.
pub open spec fn all_covered(words: Seq<ShapedWord>, bounds: Map<u32, VerticalExtremes>) -> bool {
    forall|i: int|
        0 <= i < words.len() && measurable((#[trigger] words[i]).glyphs@) ==> covered(
            words[i].glyphs@,
            bounds,
        )
}

/// The words that can be measured, each with its extent, in the order of
/// `words`. A word without glyphs or with a glyph for a missing character
/// leaves no trace.
pub open spec fn measured(words: Seq<ShapedWord>, bounds: Map<u32, VerticalExtremes>) -> Seq<
    WordExtremes,
>
    decreases words.len(),
{
    if words.len() == 0 {
        Seq::empty()
    } else {
        let before = measured(words.drop_last(), bounds);
        match word_extent(words.last().glyphs@, bounds) {
            Some(extremes) => before.push(WordExtremes { word: words.last().word, extremes }),
            None => before,
        }
    }
}

/// Of each shaped word the word and its glyphs.
pub open spec fn shapes_of(shaped: Seq<ShapedWord>) -> Seq<(String, Seq<ShapedGlyph>)> {
    Seq::new(shaped.len(), |i: int| (shaped[i].word, shaped[i].glyphs@))
}

/// Whether the bounds of every glyph of every measurable word are known,
/// for words given with their glyphs.
pub open spec fn shapes_covered(
    shapes: Seq<(String, Seq<ShapedGlyph>)>,
    bounds: Map<u32, VerticalExtremes>,
) -> bool {
    forall|i: int|
        0 <= i < shapes.len() && measurable((#[trigger] shapes[i]).1) ==> covered(
            shapes[i].1,
            bounds,
        )
}

/// Whether none of the words, given with their glyphs, can be measured.
pub open spec fn none_measurable(shapes: Seq<(String, Seq<ShapedGlyph>)>) -> bool {
    forall|i: int| 0 <= i < shapes.len() ==> !measurable((#[trigger] shapes[i]).1)
}

/// The words that can be measured, each with its extent, in order, for
/// words given with their glyphs.
pub open spec fn shapes_measured(
    shapes: Seq<(String, Seq<ShapedGlyph>)>,
    bounds: Map<u32, VerticalExtremes>,
) -> Seq<WordExtremes>
    decreases shapes.len(),
{
    if shapes.len() == 0 {
        Seq::empty()
    } else {
        let before = shapes_measured(shapes.drop_last(), bounds);
        match word_extent(shapes.last().1, bounds) {
            Some(extremes) => before.push(WordExtremes { word: shapes.last().0, extremes }),
            None => before,
        }
    }
}

/// What is measured of shaped words rests on their words and the glyphs
/// that they hold, and on nothing else.
pub proof fn lemma_shapes(shaped: Seq<ShapedWord>, bounds: Map<u32, VerticalExtremes>)
    ensures
        measured(shaped, bounds) == shapes_measured(shapes_of(shaped), bounds),
        all_covered(shaped, bounds) == shapes_covered(shapes_of(shaped), bounds),
    decreases shaped.len(),
{
    let shapes = shapes_of(shaped);
    if shaped.len() > 0 {
        lemma_shapes(shaped.drop_last(), bounds);
        assert(shapes.drop_last() =~= shapes_of(shaped.drop_last()));
        assert(shapes.last() == (shaped.last().word, shaped.last().glyphs@));
    }
    if all_covered(shaped, bounds) {
        assert forall|i: int|
            0 <= i < shapes.len() && measurable((#[trigger] shapes[i]).1) implies covered(
            shapes[i].1,
            bounds,
        ) by {
            assert(measurable(shaped[i].glyphs@));
        }
    }
    if shapes_covered(shapes, bounds) {
        assert forall|i: int|
            0 <= i < shaped.len() && measurable((#[trigger] shaped[i]).glyphs@) implies covered(
            shaped[i].glyphs@,
            bounds,
        ) by {
            assert(measurable(shapes[i].1));
        }
    }
}

/// Words none of which can be measured leave nothing: no glyph of theirs
/// needs bounds, and nothing is measured.
pub proof fn lemma_none_measurable(
    shapes: Seq<(String, Seq<ShapedGlyph>)>,
    bounds: Map<u32, VerticalExtremes>,
)
    requires
        none_measurable(shapes),
    ensures
        shapes_covered(shapes, bounds),
        shapes_measured(shapes, bounds) == Seq::<WordExtremes>::empty(),
    decreases shapes.len(),
{
    if shapes.len() > 0 {
        let front = shapes.drop_last();
        assert forall|i: int| 0 <= i < front.len() implies !measurable((#[trigger] front[i]).1) by {
            assert(front[i] == shapes[i]);
        }
        lemma_none_measurable(front, bounds);
        assert(shapes.last() == shapes[shapes.len() - 1]);
    }
}

/// Shaped words none of which can be measured reach neither list: on
/// either side the most extreme of what is measured of them are none.
pub proof fn lemma_unmeasurable_words_leave_nothing(
    side: Side,
    words: Seq<ShapedWord>,
    bounds: Map<u32, VerticalExtremes>,
    n: nat,
)
    requires
        none_measurable(shapes_of(words)),
    ensures
        all_covered(words, bounds),
        most_extreme(side, measured(words, bounds), n) == Seq::<WordExtremes>::empty(),
{
    lemma_shapes(words, bounds);
    lemma_none_measurable(shapes_of(words), bounds);
}

/// The first `k` of `words`, or all of them where `k` is `None` or no less
/// than their number.
pub open spec fn first_words(words: Seq<ShapedWord>, k: Option<usize>) -> Seq<ShapedWord> {
    match k {
        Some(k) => if k < words.len() {
            words.take(k as int)
        } else {
            words
        },
        None => words,
    }
}

/// What a collector has been offered after stretches of `shard_len` words
/// were collected one by one, from the word number `start` on, and each
/// stretch's collector was merged into the one that had been offered `acc`:
/// it is offered what each stretch's collector kept, but for the entries
/// that it holds itself at that moment.
pub open spec fn reduced(
    words: Seq<ShapedWord>,
    bounds: Map<u32, VerticalExtremes>,
    n: nat,
    shard_len: nat,
    start: int,
    acc: Seq<WordExtremes>,
) -> Seq<WordExtremes>
    decreases words.len() - start,
{
    if start < 0 || start >= words.len() || shard_len == 0 {
        acc
    } else {
        let end = if start + shard_len < words.len() {
            start + shard_len
        } else {
            words.len() as int
        };
        reduced(
            words,
            bounds,
            n,
            shard_len,
            end,
            acc + handed_over(acc, n, measured(words.subrange(start, end), bounds), n),
        )
    }
}

/// A word that cannot be measured is invisible: the measured words are the
/// same with it and without it, wherever it stands.
pub proof fn lemma_unmeasurable_word_is_invisible(
    words: Seq<ShapedWord>,
    bounds: Map<u32, VerticalExtremes>,
    i: int,
)
    requires
        0 <= i < words.len(),
        !measurable(words[i].glyphs@),
    ensures
        measured(words, bounds) == measured(words.remove(i), bounds),
    decreases words.len(),
{
    if i == words.len() - 1 {
        assert(words.remove(i) =~= words.drop_last());
    } else {
        lemma_unmeasurable_word_is_invisible(words.drop_last(), bounds, i);
        assert(words.remove(i).drop_last() =~= words.drop_last().remove(i));
        assert(words.remove(i).last() == words.last());
    }
}

/// A report on the furthest extents that the words of a word list reach at a
/// location.
#[derive(Debug)]
pub struct Report<'a> {
    /// The location at which the exemplars were found.
    pub location: &'a Location,
    /// The word list that was shaped: the whole list, also where only part
    /// of it was tested.
    pub word_list: &'a WordList,
    /// The lowest-reaching and the highest-reaching words.
    pub exemplars: Exemplars,
}

impl<'a> Report<'a> {
    /// A report from its parts.
    pub fn new(location: &'a Location, word_list: &'a WordList, exemplars: Exemplars) -> (r: Self)
        ensures
            r.location == location,
            r.word_list == word_list,
            r.exemplars == exemplars,
    {
        Report { location, word_list, exemplars }
    }
}

impl Exemplars {
    /// Wraps the exemplars into a report. Nothing checks that they were
    /// found at that location and in that word list.
    pub fn to_report<'a>(self, location: &'a Location, word_list: &'a WordList) -> (r: Report<'a>)
        ensures
            r.location == location,
            r.word_list == word_list,
            r.exemplars == self,
    {
        Report::new(location, word_list, self)
    }
}

/// A font at one location: the location and the bounds of all glyphs there.
/// It serves every word list that is tested at that location.
pub struct InstanceReporter {
    location: Location,
    instance_extremes: InstanceExtremes,
}

impl InstanceReporter {
    /// The axes of the location, with their coordinates.
    pub closed spec fn entries(&self) -> Seq<(u32, i32)> {
        self.location.entries()
    }

    /// The bounds of the glyphs, by glyph.
    pub closed spec fn bounds(&self) -> Map<u32, VerticalExtremes> {
        self.instance_extremes.bounds()
    }

    /// Whether the bounds are all in order and within the cache's limit.
    pub closed spec fn wf(&self) -> bool {
        self.instance_extremes.wf()
    }

    /// The reporter for a font at `location`, from the tags of the font's
    /// axes and what drawing each of its glyphs at that location gave.
    ///
    /// Fails as `InstanceExtremes::new` does: on an axis that the font does
    /// not have, and on the first glyph without usable bounds.
    pub fn new(location: Location, font_axes: &Vec<u32>, glyphs: Vec<DrawnGlyph>) -> (r: Result<
        Self,
        FontHeightError,
    >)
        ensures
            r.is_ok() == (crate::locations::extras_of(location.entries(), font_axes@).len() == 0
                && crate::instance::first_unusable(glyphs@, 0) == glyphs@.len()),
            match r {
                Ok(reporter) => reporter.wf() && reporter.entries() == location.entries()
                    && reporter.bounds() == crate::instance::bounds_of(
                    glyphs@,
                    glyphs@.len() as int,
                ),
                Err(e) => crate::instance::cache_failure(
                    e,
                    location.entries(),
                    font_axes@,
                    glyphs@,
                ),
            },
    {
        match InstanceExtremes::new(&location, font_axes, glyphs) {
            Ok(instance_extremes) => Ok(InstanceReporter { location, instance_extremes }),
            Err(e) => Err(e),
        }
    }

    /// The location that is tested.
    pub fn location(&self) -> (r: &Location)
        ensures
            r.entries() == self.entries(),
    {
        &self.location
    }

    /// The bounds of the glyphs at this location.
    pub fn instance_extremes(&self) -> (r: &InstanceExtremes)
        ensures
            r.bounds() == self.bounds(),
            r.wf() == self.wf(),
    {
        &self.instance_extremes
    }

    /// Whether the bounds of every glyph of every measurable word are known.
    pub fn covers_all(&self, shaped: &Vec<ShapedWord>) -> (r: bool)
        ensures
            r == all_covered(shaped@, self.bounds()),
    {
        let mut i: usize = 0;
        while i < shaped.len()
            invariant
                i <= shaped.len(),
                forall|k: int|
                    0 <= k < i && measurable((#[trigger] shaped@[k]).glyphs@) ==> covered(
                        shaped@[k].glyphs@,
                        self.bounds(),
                    ),
            decreases shaped.len() - i,
        {
            if InstanceExtremes::is_measurable(&shaped[i].glyphs) && !self.instance_extremes.covers(
                &shaped[i].glyphs,
            ) {
                return false;
            }
            i = i + 1;
        }
        true
    }

    /// A walk through the words that can be measured, each with its extent.
    pub fn to_word_extremes_iter<'a>(&'a self, words: &'a Vec<ShapedWord>) -> (r:
        WordExtremesIterator<'a>)
        requires
            self.wf(),
            all_covered(words@, self.bounds()),
        ensures
            r.wf(),
            r.bounds() == self.bounds(),
            r.remaining() == words@,
    {
        let r = WordExtremesIterator { instance_extremes: &self.instance_extremes, words, at: 0 };
        assert(r.remaining() =~= words@);
        r
    }

    /// Tests the first `k_words` shaped words of a word list, or all of
    /// them: of those that can be measured, the `n_exemplars` that reach
    /// lowest and the `n_exemplars` that reach highest.
    pub fn check<'a>(
        &'a self,
        word_list: &'a WordList,
        shaped: &Vec<ShapedWord>,
        k_words: Option<usize>,
        n_exemplars: usize,
    ) -> (r: Report<'a>)
        requires
            self.wf(),
            n_exemplars >= 1,
            all_covered(shaped@, self.bounds()),
        ensures
            r.word_list == word_list,
            r.location.entries() == self.entries(),
            r.exemplars.wf(),
            r.exemplars.lows() == most_extreme(
                Side::Lowest,
                measured(first_words(shaped@, k_words), self.bounds()),
                n_exemplars as nat,
            ),
            r.exemplars.highs() == most_extreme(
                Side::Highest,
                measured(first_words(shaped@, k_words), self.bounds()),
                n_exemplars as nat,
            ),
    {
        let limit = word_limit(shaped, k_words);
        let collector = self.collect(shaped, 0, limit, n_exemplars);
        assert(shaped@.subrange(0, limit as int) =~= shaped@.take(limit as int));
        Report { location: &self.location, word_list, exemplars: collector.build() }
    }

    /// A collector that was offered the measurable ones of the shaped words
    /// from number `from` up to, not including, number `to`.
    pub fn collect(&self, shaped: &Vec<ShapedWord>, from: usize, to: usize, n_exemplars: usize)
        -> (r: ExemplarCollector)
        requires
            self.wf(),
            n_exemplars >= 1,
            from <= to <= shaped@.len(),
            all_covered(shaped@, self.bounds()),
        ensures
            r.wf(),
            r.capacity() == n_exemplars,
            r.seen() == measured(shaped@.subrange(from as int, to as int), self.bounds()),
    {
        let mut collector = ExemplarCollector::new(n_exemplars);
        let mut i: usize = from;
        assert(shaped@.subrange(from as int, from as int) =~= Seq::<ShapedWord>::empty());
        while i < to
            invariant
                from <= i <= to <= shaped.len(),
                self.wf(),
                all_covered(shaped@, self.bounds()),
                collector.wf(),
                collector.capacity() == n_exemplars,
                collector.seen() == measured(shaped@.subrange(from as int, i as int), self.bounds()),
            decreases to - i,
        {
            assert(shaped@.subrange(from as int, i + 1).drop_last() =~= shaped@.subrange(
                from as int,
                i as int,
            ));
            assert(shaped@.subrange(from as int, i + 1).last() == shaped@[i as int]);
            let item = &shaped[i];
            match self.instance_extremes.word_extremes(&item.glyphs) {
                Some(extremes) => {
                    collector.push(WordExtremes { word: item.word.clone(), extremes });
                },
                None => {},
            }
            i = i + 1;
        }
        collector
    }

    /// Tests the first `k_words` shaped words of a word list, or all of
    /// them, as workers would that each take `shard_len` words in a row:
    /// each stretch gets a collector of its own, and the collectors are
    /// merged in the order of the stretches.
    pub fn par_check<'a>(
        &'a self,
        word_list: &'a WordList,
        shaped: &Vec<ShapedWord>,
        k_words: Option<usize>,
        n_exemplars: usize,
        shard_len: usize,
    ) -> (r: Report<'a>)
        requires
            self.wf(),
            n_exemplars >= 1,
            shard_len >= 1,
            all_covered(shaped@, self.bounds()),
        ensures
            r.word_list == word_list,
            r.location.entries() == self.entries(),
            r.exemplars.wf(),
            r.exemplars.lows() == most_extreme(
                Side::Lowest,
                reduced(
                    first_words(shaped@, k_words),
                    self.bounds(),
                    n_exemplars as nat,
                    shard_len as nat,
                    0,
                    Seq::empty(),
                ),
                n_exemplars as nat,
            ),
            r.exemplars.highs() == most_extreme(
                Side::Highest,
                reduced(
                    first_words(shaped@, k_words),
                    self.bounds(),
                    n_exemplars as nat,
                    shard_len as nat,
                    0,
                    Seq::empty(),
                ),
                n_exemplars as nat,
            ),
    {
        let limit = word_limit(shaped, k_words);
        let ghost words = first_words(shaped@, k_words);
        let mut all = ExemplarCollector::new(n_exemplars);
        let mut start: usize = 0;
        while start < limit
            invariant
                start <= limit <= shaped.len(),
                words == shaped@.take(limit as int),
                self.wf(),
                n_exemplars >= 1,
                shard_len >= 1,
                all_covered(shaped@, self.bounds()),
                all.wf(),
                all.capacity() == n_exemplars,
                reduced(
                    words,
                    self.bounds(),
                    n_exemplars as nat,
                    shard_len as nat,
                    start as int,
                    all.seen(),
                ) == reduced(
                    words,
                    self.bounds(),
                    n_exemplars as nat,
                    shard_len as nat,
                    0,
                    Seq::empty(),
                ),
            decreases limit - start,
        {
            let end: usize = if shard_len < limit - start {
                start + shard_len
            } else {
                limit
            };
            let part = self.collect(shaped, start, end, n_exemplars);
            assert(shaped@.subrange(start as int, end as int) =~= words.subrange(
                start as int,
                end as int,
            ));
            all.merge_with(part);
            start = end;
        }
        Report { location: &self.location, word_list, exemplars: all.build() }
    }
}

/// How many of the shaped words are tested.
fn word_limit(shaped: &Vec<ShapedWord>, k_words: Option<usize>) -> (r: usize)
    ensures
        r <= shaped@.len(),
        first_words(shaped@, k_words) == shaped@.take(r as int),
{
    let limit: usize = match k_words {
        Some(k) => if k < shaped.len() {
            k
        } else {
            shaped.len()
        },
        None => shaped.len(),
    };
    assert(shaped@.take(shaped@.len() as int) =~= shaped@);
    limit
}

/// The report on shaped words of a word list: of those that can be
/// measured, the `n_exemplars` that reach lowest and the `n_exemplars` that
/// reach highest.
///
/// Fails exactly where a word that can be measured has a glyph for which the
/// reporter holds no bounds. Where no word can be measured, the report is
/// there and holds no word.
pub fn report_of<'a>(
    reporter: &'a InstanceReporter,
    word_list: &'a WordList,
    shaped: &Vec<ShapedWord>,
    n_exemplars: usize,
) -> (r: Result<Report<'a>, FontHeightError>)
    requires
        reporter.wf(),
        n_exemplars >= 1,
    ensures
        r.is_ok() == all_covered(shaped@, reporter.bounds()),
        none_measurable(shapes_of(shaped@)) ==> match r {
            Ok(report) => report.exemplars.lows().len() == 0 && report.exemplars.highs().len()
                == 0,
            Err(_) => false,
        },
        match r {
            Ok(report) => {
                &&& report.exemplars.lows() == most_extreme(
                    Side::Lowest,
                    measured(shaped@, reporter.bounds()),
                    n_exemplars as nat,
                )
                &&& report.exemplars.highs() == most_extreme(
                    Side::Highest,
                    measured(shaped@, reporter.bounds()),
                    n_exemplars as nat,
                )
                &&& report.word_list == word_list
                &&& report.location.entries() == reporter.entries()
                &&& report.exemplars.wf()
            },
            Err(FontHeightError::UnknownGlyph) => true,
            Err(_) => false,
        },
{
    proof {
        lemma_shapes(shaped@, reporter.bounds());
        if none_measurable(shapes_of(shaped@)) {
            lemma_none_measurable(shapes_of(shaped@), reporter.bounds());
        }
    }
    if !reporter.covers_all(shaped) {
        return Err(FontHeightError::UnknownGlyph);
    }
    Ok(reporter.check(word_list, shaped, None, n_exemplars))
}

/// A walk through shaped words that hands out those that can be measured,
/// each with its extent.
pub struct WordExtremesIterator<'a> {
    instance_extremes: &'a InstanceExtremes,
    words: &'a Vec<ShapedWord>,
    at: usize,
}

impl<'a> WordExtremesIterator<'a> {
    /// The bounds of the glyphs, by glyph.
    pub closed spec fn bounds(&self) -> Map<u32, VerticalExtremes> {
        self.instance_extremes.bounds()
    }

    /// The shaped words that the walk has not looked at yet.
    pub closed spec fn remaining(&self) -> Seq<ShapedWord> {
        self.words@.skip(self.at as int)
    }

    /// Whether the walk lies within its words and can measure them.
    pub closed spec fn wf(&self) -> bool {
        &&& self.at <= self.words@.len()
        &&& self.instance_extremes.wf()
        &&& all_covered(self.words@, self.instance_extremes.bounds())
    }

    /// Hands out the next word that can be measured, with its extent, and
    /// passes over the words before it, which cannot; `None` where no
    /// measurable word is left.
    pub fn next(&mut self) -> (r: Option<WordExtremes>)
        requires
            old(self).wf(),
        ensures
            final(self).wf(),
            final(self).bounds() == old(self).bounds(),
            r.is_some() == (measured(old(self).remaining(), old(self).bounds()).len() > 0),
            r.is_some() ==> r.unwrap() == measured(old(self).remaining(), old(self).bounds()).first(),
            measured(final(self).remaining(), old(self).bounds()) == if r.is_some() {
                measured(old(self).remaining(), old(self).bounds()).drop_first()
            } else {
                measured(old(self).remaining(), old(self).bounds())
            },
    {
        let ghost start = self.remaining();
        let ghost bounds = self.bounds();
        while self.at < self.words.len()
            invariant
                self.wf(),
                self.bounds() == bounds,
                self.words == old(self).words,
                self.instance_extremes == old(self).instance_extremes,
                old(self).at <= self.at,
                start == old(self).remaining(),
                measured(self.remaining(), bounds) == measured(start, bounds),
            decreases self.words.len() - self.at,
        {
            let item = &self.words[self.at];
            let ghost rest = self.remaining();
            assert(rest.first() == *item);
            proof {
                lemma_measured_first(rest, bounds);
                assert(rest.drop_first() =~= self.words@.skip(self.at + 1));
            }
            let found = self.instance_extremes.word_extremes(&item.glyphs);
            self.at = self.at + 1;
            match found {
                Some(extremes) => {
                    return Some(WordExtremes { word: item.word.clone(), extremes });
                },
                None => {},
            }
        }
        assert(self.remaining() =~= Seq::<ShapedWord>::empty());
        None
    }
}

/// The measured words of a list are those of its first word, if it can be
/// measured, and then those of the rest.
pub proof fn lemma_measured_first(words: Seq<ShapedWord>, bounds: Map<u32, VerticalExtremes>)
    requires
        words.len() > 0,
    ensures
        measured(words, bounds) == match word_extent(words.first().glyphs@, bounds) {
            Some(extremes) => seq![WordExtremes { word: words.first().word, extremes }] + measured(
                words.drop_first(),
                bounds,
            ),
            None => measured(words.drop_first(), bounds),
        },
    decreases words.len(),
{
    if words.len() == 1 {
        assert(words.drop_last() =~= Seq::<ShapedWord>::empty());
        assert(words.drop_first() =~= Seq::<ShapedWord>::empty());
        assert(measured(words.drop_last(), bounds) =~= Seq::<WordExtremes>::empty());
        match word_extent(words.first().glyphs@, bounds) {
            Some(extremes) => {
                assert(measured(words, bounds) =~= seq![
                    WordExtremes { word: words.first().word, extremes },
                ] + measured(words.drop_first(), bounds));
            },
            None => {},
        }
    } else {
        let front = words.drop_last();
        lemma_measured_first(front, bounds);
        assert(front.first() == words.first());
        assert(front.drop_first() =~= words.drop_first().drop_last());
        assert(words.drop_first().last() == words.last());
        let head = word_extent(words.first().glyphs@, bounds);
        let tail = measured(words.drop_first(), bounds);
        match word_extent(words.last().glyphs@, bounds) {
            Some(extremes) => {
                let w = WordExtremes { word: words.last().word, extremes };
                match head {
                    Some(first) => {
                        let f = WordExtremes { word: words.first().word, extremes: first };
                        assert((seq![f] + measured(front.drop_first(), bounds)).push(w)
                            =~= seq![f] + tail);
                    },
                    None => {},
                }
            },
            None => {},
        }
    }
}

} // verus!
