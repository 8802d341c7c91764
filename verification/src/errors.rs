//! What can go wrong while a font is measured.

use vstd::prelude::*;
use crate::locations::MismatchedAxesError;
use crate::tags::InvalidTagError;

verus! {

/// The outline of a glyph could not be drawn.
#[derive(Debug)]
pub struct SkrifaDrawError {
    /// The glyph.
    pub glyph_id: u32,
    /// What the outline reader said.
    pub reason: String,
}

/// The font could not be read.
#[derive(Debug)]
pub struct SkrifaReadError {
    /// What the font reader said.
    pub reason: String,
}

/// Why a script or a language of a word list could not be used for shaping.
#[derive(Debug)]
pub enum ShapingPlanError {
    /// The script is no tag.
    UnknownScriptTag(InvalidTagError),
    /// The shaper does not know the language.
    UnknownLanguage(HarfRustUnknownLanguageError),
}

/// The shaper did not recognise a language.
#[derive(Debug)]
pub struct HarfRustUnknownLanguageError {
    pub language: String,
}

impl HarfRustUnknownLanguageError {
    /// The error for the language `lang`.
    pub fn new(lang: String) -> (r: Self)
        ensures
            r.language == lang,
    {
        HarfRustUnknownLanguageError { language: lang }
    }
}

/// The metadata of a word list could not be used for shaping.
#[derive(Debug)]
pub struct WordListShapingPlanError {
    /// The name of the word list.
    pub word_list_name: String,
    /// What was wrong.
    pub inner: ShapingPlanError,
}

/// Anything that stops the measuring of a font.
#[derive(Debug)]
pub enum FontHeightError {
    /// The font could not be read.
    Skrifa(SkrifaReadError),
    /// An axis tag was no tag.
    InvalidTag(InvalidTagError),
    /// The outline of a glyph could not be drawn.
    Drawing(SkrifaDrawError),
    /// The location sets axes that the font does not have.
    MismatchedAxes(MismatchedAxesError),
    /// The metadata of a word list could not be used for shaping.
    WordListMetadata(WordListShapingPlanError),
    /// The bounds of the glyph are out of order, or too far out to be moved
    /// by a shaping offset.
    GlyphBounds(u32),
    /// Shaping chose a glyph for which no bounds were collected.
    UnknownGlyph,
}

} // verus!
