//! A parsed font: its variation axes and named instances, and the shaper
//! that is made for it.

use vstd::prelude::*;
use skrifa::raw::TableProvider;
use crate::design_space::{
    coordinate_sets, interesting_locations, location_at, product, rows, Axis,
};
use crate::errors::{FontHeightError, SkrifaReadError};
use crate::instance::DrawnGlyph;
use crate::locations::{extras_of, Location};
use crate::reporter::{InstanceReporter, Report};
use crate::reporter::none_measurable;
use crate::shaping::{check_word_list, listed_shapes, metadata_fits, shapes_outcome};
use crate::word_lists::WordList;

verus! {

#[verifier::external_type_specification]
#[verifier::external_body]
pub struct ExFontRef<'a>(skrifa::FontRef<'a>);

#[verifier::external_type_specification]
#[verifier::external_body]
pub struct ExReadError(skrifa::raw::ReadError);

#[verifier::external_type_specification]
#[verifier::external_body]
pub struct ExShaperData(harfrust::ShaperData);

#[verifier::external_type_specification]
#[verifier::external_body]
pub struct ExShaperInstance(harfrust::ShaperInstance);

/// Whether the bytes can be read as a font.
pub uninterp spec fn is_font(bytes: Seq<u8>) -> bool;

/// Reads bytes as a font, with `skrifa::FontRef::new`.
///
/// Trusted: whether the bytes are read depends on the bytes alone.
#[verifier::external_body]
fn font_ref_new<'a>(bytes: &'a [u8]) -> (r: Result<skrifa::FontRef<'a>, skrifa::raw::ReadError>)
    ensures
        r.is_ok() == is_font(bytes@),
{
    skrifa::FontRef::new(bytes)
}

/// What a read error says, with its `Display`.
///
/// Trusted: nothing of the text.
#[verifier::external_body]
fn read_error_text(error: &skrifa::raw::ReadError) -> (r: String) {
    format!("{error}")
}

/// The shaper's tables for a font, with `harfrust::ShaperData::new`.
///
/// Trusted: nothing; the value is only handed back to the shaper.
#[verifier::external_body]
fn shaper_data_new(font: &skrifa::FontRef<'_>) -> (r: harfrust::ShaperData) {
    harfrust::ShaperData::new(font)
}

/// The variation axes that a font file names, in the order of its `fvar`
/// table: of each its tag, and its least, default and greatest coordinate
/// as the table holds them. None for bytes that are no font, and for a font
/// without such a table.
pub uninterp spec fn fvar_axes(bytes: Seq<u8>) -> Seq<(u32, i32, i32, i32)>;

/// The coordinates of each named instance that a font file names, one per
/// axis, as its `fvar` table holds them.
pub uninterp spec fn fvar_instances(bytes: Seq<u8>) -> Seq<Seq<i32>>;

/// Of each axis its tag and its least, default and greatest coordinate.
pub open spec fn axis_values(axes: Seq<Axis>) -> Seq<(u32, i32, i32, i32)> {
    Seq::new(
        axes.len(),
        |i: int| (axes[i].tag, axes[i].min_value, axes[i].default_value, axes[i].max_value),
    )
}

/// The variation axes of a font file in the order of its `fvar` table, with
/// the coordinates as the table holds them, with `Fvar::axes`.
///
/// Trusted: the axes depend on the bytes alone.
#[verifier::external_body]
fn font_axes(bytes: &[u8]) -> (r: Vec<Axis>)
    ensures
        axis_values(r@) == fvar_axes(bytes@),
{
    let fvar = skrifa::FontRef::new(bytes).ok().and_then(|font| font.fvar().ok());
    let records = fvar.and_then(|fvar| fvar.axes().ok()).unwrap_or_default();
    records
        .iter()
        .map(|axis| Axis {
            tag: u32::from_be_bytes(axis.axis_tag().to_be_bytes()),
            min_value: axis.min_value().to_bits(),
            default_value: axis.default_value().to_bits(),
            max_value: axis.max_value().to_bits(),
        })
        .collect()
}

/// The coordinates of each named instance of a font file, one per axis, as
/// the `fvar` table holds them, with `Fvar::instances`.
///
/// Trusted: the coordinates depend on the bytes alone.
#[verifier::external_body]
fn font_instances(bytes: &[u8]) -> (r: Vec<Vec<i32>>)
    ensures
        rows(r@) == fvar_instances(bytes@),
{
    let fvar = skrifa::FontRef::new(bytes).ok().and_then(|font| font.fvar().ok());
    match fvar.and_then(|fvar| fvar.instances().ok()) {
        Some(instances) => instances
            .iter()
            .filter_map(|instance| instance.ok())
            .map(|instance| instance.coordinates.iter().map(|c| c.get().to_bits()).collect())
            .collect(),
        None => Vec::new(),
    }
}

/// The shaper that is built for a font from its tables and variation
/// settings.
pub uninterp spec fn built_shaper(
    data: harfrust::ShaperData,
    font: skrifa::FontRef<'_>,
    instance: harfrust::ShaperInstance,
) -> harfrust::Shaper<'_>;

/// A shaper for a font with variation settings, with
/// `harfrust::ShaperData::shaper` and `harfrust::ShaperBuilder::build`.
///
/// Trusted: the shaper depends on the tables, the font and the settings
/// alone.
#[verifier::external_body]
fn build_shaper<'a>(
    data: &'a harfrust::ShaperData,
    font: &skrifa::FontRef<'a>,
    instance: &'a harfrust::ShaperInstance,
) -> (r: harfrust::Shaper<'a>)
    ensures
        r == built_shaper(*data, *font, *instance),
{
    data.shaper(font).instance(Some(instance)).build()
}

/// The tags of `axes`, in order.
pub open spec fn tags_of(axes: Seq<Axis>) -> Seq<u32> {
    Seq::new(axes.len(), |i: int| axes[i].tag)
}

/// A parsed font whose words can be shaped and whose design space can be
/// walked.
pub struct Reporter<'a> {
    font: skrifa::FontRef<'a>,
    shaper_data: harfrust::ShaperData,
    axes: Vec<Axis>,
    instances: Vec<Vec<i32>>,
}

impl<'a> Reporter<'a> {
    /// The variation axes of the font.
    pub closed spec fn axes(&self) -> Seq<Axis> {
        self.axes@
    }

    /// The font that was parsed.
    pub closed spec fn font(&self) -> skrifa::FontRef<'a> {
        self.font
    }

    /// The coordinates of the named instances of the font, one per axis.
    pub closed spec fn instances(&self) -> Seq<Vec<i32>> {
        self.instances@
    }

    /// Parses the bytes as a font, and reads the variation axes and the
    /// named instances that it names. Fails if the bytes are no font.
    pub fn new(font_bytes: &'a [u8]) -> (r: Result<Self, FontHeightError>)
        ensures
            r.is_ok() == is_font(font_bytes@),
            match r {
                Ok(reporter) => axis_values(reporter.axes()) == fvar_axes(font_bytes@) && rows(
                    reporter.instances(),
                ) == fvar_instances(font_bytes@),
                Err(FontHeightError::Skrifa(_)) => true,
                Err(_) => false,
            },
    {
        match font_ref_new(font_bytes) {
            Ok(font) => {
                let shaper_data = shaper_data_new(&font);
                let axes = font_axes(font_bytes);
                let instances = font_instances(font_bytes);
                Ok(Reporter { font, shaper_data, axes, instances })
            },
            Err(e) => Err(FontHeightError::Skrifa(SkrifaReadError { reason: read_error_text(&e) })),
        }
    }

    /// The parsed font.
    pub fn fontref(&self) -> (r: &skrifa::FontRef<'a>)
        ensures
            *r == self.font(),
    {
        &self.font
    }

    /// The tags of the font's axes, in their order.
    pub fn axis_tags(&self) -> (r: Vec<u32>)
        ensures
            r@ == tags_of(self.axes()),
    {
        let mut tags: Vec<u32> = Vec::new();
        let mut i: usize = 0;
        while i < self.axes.len()
            invariant
                i <= self.axes.len(),
                tags@ == tags_of(self.axes()).take(i as int),
            decreases self.axes.len() - i,
        {
            tags.push(self.axes[i].tag);
            assert(tags@ =~= tags_of(self.axes()).take(i + 1));
            i = i + 1;
        }
        assert(tags_of(self.axes()).take(self.axes.len() as int) =~= tags_of(self.axes()));
        tags
    }

    /// Every combination of the coordinates seen on each axis of the font:
    /// its default, least and greatest, and those of the named instances.
    ///
    /// The number of locations grows fast with the number of axes.
    pub fn interesting_locations(&self) -> (r: Vec<Location>)
        ensures
            r@.len() == product(coordinate_sets(self.axes(), self.instances())).len(),
            forall|k: int|
                0 <= k < r@.len() ==> (#[trigger] r@[k]).entries() == location_at(
                    self.axes(),
                    product(coordinate_sets(self.axes(), self.instances()))[k],
                ) && r@[k].wf(),
    {
        interesting_locations(&self.axes, &self.instances)
    }

    /// The reporter for the font at `location`, from what drawing each of
    /// the font's glyphs at that location gave.
    ///
    /// Fails if the location sets an axis that the font does not have, and
    /// on the first glyph without usable bounds.
    pub fn instance(&self, location: Location, glyphs: Vec<DrawnGlyph>) -> (r: Result<
        InstanceReporter,
        FontHeightError,
    >)
        ensures
            r.is_ok() == (extras_of(location.entries(), tags_of(self.axes())).len() == 0
                && crate::instance::first_unusable(glyphs@, 0) == glyphs@.len()),
            match r {
                Ok(reporter) => reporter.wf() && reporter.entries() == location.entries()
                    && reporter.bounds() == crate::instance::bounds_of(
                    glyphs@,
                    glyphs@.len() as int,
                ),
                Err(e) => crate::instance::cache_failure(
                    e,
                    location.entries(),
                    tags_of(self.axes()),
                    glyphs@,
                ),
            },
    {
        let tags = self.axis_tags();
        InstanceReporter::new(location, &tags, glyphs)
    }

    /// The reporter for the font at its default location.
    pub fn default_instance(&self, glyphs: Vec<DrawnGlyph>) -> (r: Result<
        InstanceReporter,
        FontHeightError,
    >)
        ensures
            r.is_ok() == (crate::instance::first_unusable(glyphs@, 0) == glyphs@.len()),
            match r {
                Ok(reporter) => reporter.wf() && reporter.entries() == Seq::<(u32, i32)>::empty()
                    && reporter.bounds() == crate::instance::bounds_of(
                    glyphs@,
                    glyphs@.len() as int,
                ),
                Err(e) => crate::instance::cache_failure(
                    e,
                    Seq::empty(),
                    tags_of(self.axes()),
                    glyphs@,
                ),
            },
    {
        self.instance(Location::new(), glyphs)
    }

    /// The shaper for the font with the given variation settings.
    pub closed spec fn shaper_with(&self, settings: harfrust::ShaperInstance) -> harfrust::Shaper<
        'a,
    > {
        built_shaper(self.shaper_data, self.font, settings)
    }

    /// Tests a word list at the location of `instance`: shapes its first
    /// `k_words` words, or all of them, with the font set to the variation
    /// `settings`, which are to be those of that location, and keeps of the
    /// words that can be measured the `n_exemplars` that reach lowest and
    /// the `n_exemplars` that reach highest. The words are taken one after
    /// the other.
    ///
    /// Fails if the metadata of the word list cannot be used for shaping;
    /// else exactly where the shaper makes of a word that can be measured a
    /// glyph for which the instance holds no bounds. Where none of the words
    /// can be measured, the report holds no word.
    pub fn par_check<'r>(
        &self,
        instance: &'r InstanceReporter,
        settings: &harfrust::ShaperInstance,
        word_list: &'r WordList,
        k_words: Option<usize>,
        n_exemplars: usize,
    ) -> (r: Result<Report<'r>, FontHeightError>)
        requires
            instance.wf(),
            n_exemplars >= 1,
        ensures
            !metadata_fits(word_list) ==> match r {
                Err(FontHeightError::WordListMetadata(e)) => e.word_list_name@
                    == word_list.metadata().name@,
                _ => false,
            },
            metadata_fits(word_list) ==> shapes_outcome(
                r,
                instance,
                word_list,
                listed_shapes(self.shaper_with(*settings), word_list, k_words),
                n_exemplars as nat,
            ),
            metadata_fits(word_list) && none_measurable(
                listed_shapes(self.shaper_with(*settings), word_list, k_words),
            ) ==> match r {
                Ok(report) => report.exemplars.lows().len() == 0 && report.exemplars.highs().len()
                    == 0,
                Err(_) => false,
            },
    {
        let shaper = build_shaper(&self.shaper_data, &self.font, settings);
        check_word_list(instance, &shaper, word_list, k_words, n_exemplars)
    }
}

} // verus!
