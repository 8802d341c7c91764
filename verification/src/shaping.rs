//! What a shaper has to be told about the words of a word list, and the
//! calls that shape them.

use vstd::prelude::*;
use vstd::string::StringSliceAdditionalSpecFns;
use vstd::utf8::encode_utf8;
use crate::errors::{
    FontHeightError, HarfRustUnknownLanguageError, ShapingPlanError, WordListShapingPlanError,
};
use crate::instance::ShapedGlyph;
use crate::ranking::{most_extreme, Side};
use crate::reporter::{
    none_measurable, report_of, shapes_covered, shapes_measured, shapes_of, lemma_shapes,
    InstanceReporter, Report, ShapedWord,
};
use crate::tags::{is_tag, padded, parse_tag, tag_error, tag_number, InvalidTagError};
use crate::word_lists::WordList;

verus! {

#[verifier::external_type_specification]
#[verifier::external_body]
pub struct ExShaper<'a>(harfrust::Shaper<'a>);

#[verifier::external_type_specification]
#[verifier::external_body]
pub struct ExShapePlan(harfrust::ShapePlan);

#[verifier::external_type_specification]
#[verifier::external_body]
pub struct ExUnicodeBuffer(harfrust::UnicodeBuffer);

#[verifier::external_type_specification]
#[verifier::external_body]
pub struct ExGlyphBuffer(harfrust::GlyphBuffer);


/// The direction in which text is set.
#[derive(Debug, Clone, Copy, PartialEq, Eq, Structural)]
pub enum TextDirection {
    LeftToRight,
    RightToLeft,
    TopToBottom,
    BottomToTop,
}

/// The script `Arab`.
pub const ARABIC: u32 = 0x41726162;
/// The script `Hebr`.
pub const HEBREW: u32 = 0x48656272;
/// The script `Syrc`.
pub const SYRIAC: u32 = 0x53797263;
/// The script `Thaa`.
pub const THAANA: u32 = 0x54686161;
/// The script `Cprt`.
pub const CYPRIOT: u32 = 0x43707274;
/// The script `Khar`.
pub const KHAROSHTHI: u32 = 0x4b686172;
/// The script `Phnx`.
pub const PHOENICIAN: u32 = 0x50686e78;
/// The script `Nkoo`.
pub const NKO: u32 = 0x4e6b6f6f;
/// The script `Lydi`.
pub const LYDIAN: u32 = 0x4c796469;
/// The script `Avst`.
pub const AVESTAN: u32 = 0x41767374;
/// The script `Armi`.
pub const IMPERIAL_ARAMAIC: u32 = 0x41726d69;
/// The script `Phli`.
pub const INSCRIPTIONAL_PAHLAVI: u32 = 0x50686c69;
/// The script `Prti`.
pub const INSCRIPTIONAL_PARTHIAN: u32 = 0x50727469;
/// The script `Sarb`.
pub const OLD_SOUTH_ARABIAN: u32 = 0x53617262;
/// The script `Orkh`.
pub const OLD_TURKIC: u32 = 0x4f726b68;
/// The script `Samr`.
pub const SAMARITAN: u32 = 0x53616d72;
/// The script `Mand`.
pub const MANDAIC: u32 = 0x4d616e64;
/// The script `Merc`.
pub const MEROITIC_CURSIVE: u32 = 0x4d657263;
/// The script `Mero`.
pub const MEROITIC_HIEROGLYPHS: u32 = 0x4d65726f;
/// The script `Mani`.
pub const MANICHAEAN: u32 = 0x4d616e69;
/// The script `Mend`.
pub const MENDE_KIKAKUI: u32 = 0x4d656e64;
/// The script `Nbat`.
pub const NABATAEAN: u32 = 0x4e626174;
/// The script `Narb`.
pub const OLD_NORTH_ARABIAN: u32 = 0x4e617262;
/// The script `Palm`.
pub const PALMYRENE: u32 = 0x50616c6d;
/// The script `Phlp`.
pub const PSALTER_PAHLAVI: u32 = 0x50686c70;
/// The script `Hatr`.
pub const HATRAN: u32 = 0x48617472;
/// The script `Adlm`.
pub const ADLAM: u32 = 0x41646c6d;
/// The script `Rohg`.
pub const HANIFI_ROHINGYA: u32 = 0x526f6867;
/// The script `Sogo`.
pub const OLD_SOGDIAN: u32 = 0x536f676f;
/// The script `Sogd`.
pub const SOGDIAN: u32 = 0x536f6764;
/// The script `Elym`.
pub const ELYMAIC: u32 = 0x456c796d;
/// The script `Chrs`.
pub const CHORASMIAN: u32 = 0x43687273;
/// The script `Yezi`.
pub const YEZIDI: u32 = 0x59657a69;
/// The script `Ougr`.
pub const OLD_UYGHUR: u32 = 0x4f756772;

/// The script `Hung`.
pub const OLD_HUNGARIAN: u32 = 0x48756e67;
/// The script `Ital`.
pub const OLD_ITALIC: u32 = 0x4974616c;
/// The script `Runr`.
pub const RUNIC: u32 = 0x52756e72;
/// The script `Tfng`.
pub const TIFINAGH: u32 = 0x54666e67;

/// The script `Zinh`.
pub const INHERITED: u32 = 1516858984;
/// The script `Copt`.
pub const COPTIC: u32 = 1131376756;
/// The script `Cyrl`.
pub const CYRILLIC: u32 = 1132032620;
/// The script `Geor`.
pub const GEORGIAN: u32 = 1197830002;
/// The script `Hani`.
pub const HAN: u32 = 1214344809;
/// The script `Hang`.
pub const HANGUL: u32 = 1214344807;
/// The script `Latn`.
pub const LATIN: u32 = 1281455214;
/// The script `Zzzz`.
pub const UNKNOWN: u32 = 1517976186;

/// The script code `Qaai`, another name of a script.
pub const QAAI: u32 = 0x51616169;
/// The script code `Qaac`, another name of a script.
pub const QAAC: u32 = 0x51616163;
/// The script code `Aran`, another name of a script.
pub const ARAN: u32 = 0x4172616e;
/// The script code `Cyrs`, another name of a script.
pub const CYRS: u32 = 0x43797273;
/// The script code `Geok`, another name of a script.
pub const GEOK: u32 = 0x47656f6b;
/// The script code `Hans`, another name of a script.
pub const HANS: u32 = 0x48616e73;
/// The script code `Hant`, another name of a script.
pub const HANT: u32 = 0x48616e74;
/// The script code `Jamo`, another name of a script.
pub const JAMO: u32 = 0x4a616d6f;
/// The script code `Latf`, another name of a script.
pub const LATF: u32 = 0x4c617466;
/// The script code `Latg`, another name of a script.
pub const LATG: u32 = 0x4c617467;
/// The script code `Syre`, another name of a script.
pub const SYRE: u32 = 0x53797265;
/// The script code `Syrj`, another name of a script.
pub const SYRJ: u32 = 0x5379726a;
/// The script code `Syrn`, another name of a script.
pub const SYRN: u32 = 0x5379726e;

/// Whether the script with this tag is written from right to left.
pub open spec fn is_right_to_left(script: u32) -> bool {
    ||| script == ARABIC
    ||| script == HEBREW
    ||| script == SYRIAC
    ||| script == THAANA
    ||| script == CYPRIOT
    ||| script == KHAROSHTHI
    ||| script == PHOENICIAN
    ||| script == NKO
    ||| script == LYDIAN
    ||| script == AVESTAN
    ||| script == IMPERIAL_ARAMAIC
    ||| script == INSCRIPTIONAL_PAHLAVI
    ||| script == INSCRIPTIONAL_PARTHIAN
    ||| script == OLD_SOUTH_ARABIAN
    ||| script == OLD_TURKIC
    ||| script == SAMARITAN
    ||| script == MANDAIC
    ||| script == MEROITIC_CURSIVE
    ||| script == MEROITIC_HIEROGLYPHS
    ||| script == MANICHAEAN
    ||| script == MENDE_KIKAKUI
    ||| script == NABATAEAN
    ||| script == OLD_NORTH_ARABIAN
    ||| script == PALMYRENE
    ||| script == PSALTER_PAHLAVI
    ||| script == HATRAN
    ||| script == ADLAM
    ||| script == HANIFI_ROHINGYA
    ||| script == OLD_SOGDIAN
    ||| script == SOGDIAN
    ||| script == ELYMAIC
    ||| script == CHORASMIAN
    ||| script == YEZIDI
    ||| script == OLD_UYGHUR
}

/// Whether the script with this tag has no one direction: it was written
/// both ways.
pub open spec fn is_undirected(script: u32) -> bool {
    ||| script == OLD_HUNGARIAN
    ||| script == OLD_ITALIC
    ||| script == RUNIC
    ||| script == TIFINAGH
}

/// The direction of a script, where it has one.
pub open spec fn script_direction(script: u32) -> Option<TextDirection> {
    if is_right_to_left(script) {
        Some(TextDirection::RightToLeft)
    } else if is_undirected(script) {
        None
    } else {
        Some(TextDirection::LeftToRight)
    }
}

/// The direction in which the script with the tag `script` is written:
/// right to left for the scripts that are, none for the few that were
/// written both ways, left to right for every other.
pub fn direction_from_script(script: u32) -> (r: Option<TextDirection>)
    ensures
        r == script_direction(script),
{
    match script {
        ARABIC | HEBREW | SYRIAC | THAANA | CYPRIOT | KHAROSHTHI | PHOENICIAN | NKO | LYDIAN | AVESTAN | IMPERIAL_ARAMAIC | INSCRIPTIONAL_PAHLAVI | INSCRIPTIONAL_PARTHIAN | OLD_SOUTH_ARABIAN | OLD_TURKIC | SAMARITAN | MANDAIC | MEROITIC_CURSIVE | MEROITIC_HIEROGLYPHS | MANICHAEAN | MENDE_KIKAKUI | NABATAEAN | OLD_NORTH_ARABIAN | PALMYRENE | PSALTER_PAHLAVI | HATRAN | ADLAM | HANIFI_ROHINGYA | OLD_SOGDIAN | SOGDIAN | ELYMAIC | CHORASMIAN | YEZIDI | OLD_UYGHUR => Some(TextDirection::RightToLeft),
        OLD_HUNGARIAN | OLD_ITALIC | RUNIC | TIFINAGH => None,
        _ => Some(TextDirection::LeftToRight),
    }
}

/// A script code with its first letter in upper case and the others in
/// lower case.
pub open spec fn title_case(tag: u32) -> u32 {
    (tag & 0xDFDF_DFDF) | 0x0020_2020
}

/// The script that an ISO 15924 code names to the shaper: none for the code
/// of four zero bytes; the script itself for its other names; else the code
/// in title case if it is four letters, and the unknown script if not.
pub open spec fn iso15924_script(tag: u32) -> Option<u32> {
    let t = title_case(tag);
    if tag == 0 {
        None
    } else if t == QAAI {
        Some(INHERITED)
    } else if t == QAAC {
        Some(COPTIC)
    } else if t == ARAN {
        Some(ARABIC)
    } else if t == CYRS {
        Some(CYRILLIC)
    } else if t == GEOK {
        Some(GEORGIAN)
    } else if t == HANS || t == HANT {
        Some(HAN)
    } else if t == JAMO {
        Some(HANGUL)
    } else if t == LATF || t == LATG {
        Some(LATIN)
    } else if t == SYRE || t == SYRJ || t == SYRN {
        Some(SYRIAC)
    } else if t & 0xE0E0_E0E0 == 0x4060_6060 {
        Some(t)
    } else {
        Some(UNKNOWN)
    }
}

/// The shaper's script for an ISO 15924 code, with
/// `harfrust::Script::from_iso15924_tag`.
///
/// Trusted: the code of four zero bytes names none; the other names of a
/// script give that script; any other code is put in title case and is the
/// script if it is four letters, the unknown script if not.
#[verifier::external_body]
fn script_from_iso15924_tag(tag: u32) -> (r: Option<u32>)
    ensures
        r == iso15924_script(tag),
{
    harfrust::Script::from_iso15924_tag(harfrust::Tag::from_u32(tag)).map(
        |script| u32::from_be_bytes(script.tag().to_be_bytes()),
    )
}

/// Whether the shaper takes the language, with `harfrust::Language::from_str`.
///
/// Trusted: it takes every language but the empty one.
#[verifier::external_body]
fn language_is_known(language: &str) -> (r: bool)
    ensures
        r == (language@.len() > 0),
{
    language.parse::<harfrust::Language>().is_ok()
}

/// What the shaper is told about a text: its script, its direction and,
/// where known, its language.
#[derive(Debug)]
pub struct ShapingProperties {
    /// The tag of the script.
    pub script: u32,
    pub direction: TextDirection,
    pub language: Option<String>,
}

/// Whether the optional language is one that the shaper takes.
pub open spec fn language_fits(language: Option<&str>) -> bool {
    language.is_some() ==> language.unwrap()@.len() > 0
}

/// The properties of texts in `script`, an ISO 15924 code, and `language`.
///
/// Fails if the script is no tag; else if the language is empty. A script
/// without a direction of its own is shaped from left to right.
pub fn shaping_properties(script: &str, language: Option<&str>) -> (r: Result<
    ShapingProperties,
    ShapingPlanError,
>)
    ensures
        r.is_ok() == (is_tag(script.spec_bytes()) && language_fits(language)),
        r.is_ok() ==> {
            let p = r.unwrap();
            let named = iso15924_script(tag_number(padded(script.spec_bytes())));
            &&& named == Some(p.script)
            &&& p.direction == match script_direction(p.script) {
                Some(d) => d,
                None => TextDirection::LeftToRight,
            }
            &&& p.language.is_some() == language.is_some()
            &&& p.language.is_some() ==> p.language.unwrap()@ == language.unwrap()@
        },
        r.is_err() ==> match r.unwrap_err() {
            ShapingPlanError::UnknownScriptTag(e) => !is_tag(script.spec_bytes()) && e == tag_error(
                script.spec_bytes(),
            ),
            ShapingPlanError::UnknownLanguage(e) => is_tag(script.spec_bytes()) && language.is_some()
                && language.unwrap()@.len() == 0 && e.language@ == language.unwrap()@,
        },
{
    let tag = match parse_tag(script.as_bytes()) {
        Ok(tag) => tag,
        Err(e) => {
            return Err(ShapingPlanError::UnknownScriptTag(e));
        },
    };
    proof {
        lemma_tag_is_not_null(script.spec_bytes());
    }
    let named = match script_from_iso15924_tag(tag) {
        Some(named) => named,
        None => UNKNOWN,
    };
    let language = match language {
        Some(l) => {
            if !language_is_known(l) {
                return Err(
                    ShapingPlanError::UnknownLanguage(
                        HarfRustUnknownLanguageError::new(l.to_owned()),
                    ),
                );
            }
            Some(l.to_owned())
        },
        None => None,
    };
    let direction = match direction_from_script(named) {
        Some(d) => d,
        None => TextDirection::LeftToRight,
    };
    Ok(ShapingProperties { script: named, direction, language })
}

/// A tag is not the number zero: its first byte is a printable character.
pub proof fn lemma_tag_is_not_null(src: Seq<u8>)
    requires
        is_tag(src),
    ensures
        tag_number(padded(src)) != 0,
{
    assert(crate::tags::byte_fits(src, 0));
    let p = padded(src);
    assert(p[0] == src[0]);
    assert(p[0] >= 0x20);
    assert(p[0] as u32 * 0x100_0000 + p[1] as u32 * 0x1_0000 + p[2] as u32 * 0x100 + p[3] as u32
        >= 0x2000_0000) by (nonlinear_arith)
        requires
            p[0] >= 0x20,
    ;
}

/// What shaping the words of one word list at one location needs: the
/// properties of the text, and the shaper's plan for them.
pub struct ShapingMeta {
    shaping_plan: harfrust::ShapePlan,
    properties: ShapingProperties,
}

/// The characters of an optional text.
pub open spec fn language_view(language: Option<String>) -> Option<Seq<char>> {
    match language {
        Some(l) => Some(l@),
        None => None,
    }
}

/// The plan that a shaper makes for texts of a script, a direction and a
/// language.
pub uninterp spec fn shape_plan(
    shaper: harfrust::Shaper<'_>,
    script: u32,
    direction: TextDirection,
    language: Option<Seq<char>>,
) -> harfrust::ShapePlan;

/// The glyphs, each with its vertical offset, that a shaper makes of a text
/// of a script, a direction and a language, according to a plan.
pub uninterp spec fn plan_shaped(
    shaper: harfrust::Shaper<'_>,
    plan: harfrust::ShapePlan,
    script: u32,
    direction: TextDirection,
    language: Option<Seq<char>>,
    text: Seq<char>,
) -> Seq<(u32, i32)>;

/// The glyphs, each with its vertical offset, that a shaper makes of a text
/// whose script and direction it guesses from the characters.
pub uninterp spec fn guess_shaped(shaper: harfrust::Shaper<'_>, text: Seq<char>) -> Seq<
    (u32, i32),
>;

/// The shaper's plan for texts with the given properties, with
/// `harfrust::ShapePlan::new`.
///
/// Trusted: the plan depends on the shaper and the properties alone. The
/// direction handed over is never the unset one, which the call refuses.
#[verifier::external_body]
fn shape_plan_new(shaper: &harfrust::Shaper<'_>, properties: &ShapingProperties) -> (r:
    harfrust::ShapePlan)
    ensures
        r == shape_plan(
            *shaper,
            properties.script,
            properties.direction,
            language_view(properties.language),
        ),
{
    harfrust::ShapePlan::new(
        shaper,
        match properties.direction {
            TextDirection::LeftToRight => harfrust::Direction::LeftToRight,
            TextDirection::RightToLeft => harfrust::Direction::RightToLeft,
            TextDirection::TopToBottom => harfrust::Direction::TopToBottom,
            TextDirection::BottomToTop => harfrust::Direction::BottomToTop,
        },
        harfrust::Script::from_iso15924_tag(harfrust::Tag::from_u32(properties.script)),
        properties.language.as_deref().and_then(|l| l.parse().ok()).as_ref(),
        &[],
    )
}

/// The characters that a buffer holds before it is shaped, in order.
pub uninterp spec fn buffer_text(buffer: harfrust::UnicodeBuffer) -> Seq<char>;

/// The glyphs that a shaped buffer holds, each with its vertical offset, in
/// shaping order.
pub uninterp spec fn buffer_glyphs(buffer: harfrust::GlyphBuffer) -> Seq<(u32, i32)>;

/// Each glyph as the pair of its number and its vertical offset.
pub open spec fn glyph_pairs(glyphs: Seq<ShapedGlyph>) -> Seq<(u32, i32)> {
    Seq::new(glyphs.len(), |i: int| (glyphs[i].glyph_id, glyphs[i].y_offset))
}

/// How many characters a new buffer takes at most.
pub const BUFFER_LIMIT: usize = 0x3FFF_FFFF;

/// What a new buffer holds of a text: all of it, or nothing where it is
/// longer than the buffer's limit.
pub open spec fn buffered(text: Seq<char>) -> Seq<char> {
    if text.len() <= BUFFER_LIMIT {
        text
    } else {
        Seq::empty()
    }
}

/// A buffer that holds the characters of a word, with
/// `harfrust::UnicodeBuffer::new` and `push_str`.
///
/// Trusted: the new buffer takes all the characters of the word, in order,
/// or, where they are more than a buffer may hold, none of them.
#[verifier::external_body]
fn unicode_buffer(word: &str) -> (r: harfrust::UnicodeBuffer)
    ensures
        buffer_text(r) == buffered(word@),
{
    let mut buffer = harfrust::UnicodeBuffer::new();
    buffer.push_str(word);
    buffer
}

/// Shapes a buffer according to the plan of `meta`, with
/// `harfrust::Shaper::shape_with_plan`, after the buffer was given the
/// script, the language and the direction that the plan was made for, as
/// the call demands.
///
/// Trusted: the glyphs depend on the shaper, the plan, the properties and
/// the buffer's characters alone; a buffer without characters is not shaped
/// and holds no glyphs afterwards.
#[verifier::external_body]
fn shape_with_meta(
    shaper: &harfrust::Shaper<'_>,
    meta: &ShapingMeta,
    buffer: harfrust::UnicodeBuffer,
) -> (r: harfrust::GlyphBuffer)
    ensures
        buffer_glyphs(r) == plan_shaped(
            *shaper,
            meta.plan(),
            meta.properties().script,
            meta.properties().direction,
            language_view(meta.properties().language),
            buffer_text(buffer),
        ),
        buffer_text(buffer).len() == 0 ==> buffer_glyphs(r).len() == 0,
{
    let (mut buffer, properties) = (buffer, &meta.properties);
    if let Some(s) = harfrust::Script::from_iso15924_tag(harfrust::Tag::from_u32(properties.script)) {
        buffer.set_script(s);
    }
    if let Some(language) = properties.language.as_deref().and_then(|l| l.parse().ok()) {
        buffer.set_language(language);
    }
    buffer.set_direction(match properties.direction {
        TextDirection::LeftToRight => harfrust::Direction::LeftToRight,
        TextDirection::RightToLeft => harfrust::Direction::RightToLeft,
        TextDirection::TopToBottom => harfrust::Direction::TopToBottom,
        TextDirection::BottomToTop => harfrust::Direction::BottomToTop,
    });
    shaper.shape_with_plan(&meta.shaping_plan, buffer, &[])
}

/// Shapes a buffer whose script and direction the shaper guesses from its
/// characters, with `harfrust::UnicodeBuffer::guess_segment_properties`
/// and `harfrust::Shaper::shape`.
///
/// Trusted: the glyphs depend on the shaper and the buffer's characters
/// alone; a buffer without characters is not shaped and holds no glyphs
/// afterwards.
#[verifier::external_body]
fn shape_guessing(shaper: &harfrust::Shaper<'_>, buffer: harfrust::UnicodeBuffer) -> (r:
    harfrust::GlyphBuffer)
    ensures
        buffer_glyphs(r) == guess_shaped(*shaper, buffer_text(buffer)),
        buffer_text(buffer).len() == 0 ==> buffer_glyphs(r).len() == 0,
{
    let mut buffer = buffer;
    buffer.guess_segment_properties();
    shaper.shape(buffer, &[])
}

/// The glyphs of a shaped buffer with their vertical offsets, in shaping
/// order, with `harfrust::GlyphBuffer::glyph_infos` and `glyph_positions`.
///
/// Trusted: the glyphs handed out are those that the buffer holds, one for
/// one. Nothing of which glyphs they are.
#[verifier::external_body]
fn shaped_glyphs(buffer: &harfrust::GlyphBuffer) -> (r: Vec<ShapedGlyph>)
    ensures
        glyph_pairs(r@) == buffer_glyphs(*buffer),
{
    buffer
        .glyph_infos()
        .iter()
        .zip(buffer.glyph_positions())
        .map(|(info, pos)| ShapedGlyph { glyph_id: info.glyph_id, y_offset: pos.y_offset })
        .collect()
}

/// The glyphs that a shaper makes of a text according to the plan and the
/// properties of `meta`.
pub open spec fn meta_glyphs(shaper: harfrust::Shaper<'_>, meta: ShapingMeta, text: Seq<char>)
    -> Seq<(u32, i32)> {
    plan_shaped(
        shaper,
        meta.plan(),
        meta.properties().script,
        meta.properties().direction,
        language_view(meta.properties().language),
        text,
    )
}

/// The glyphs that a shaper makes of a text: according to `meta` where
/// there is one, else with the script and direction that it guesses.
pub open spec fn word_glyphs(
    shaper: harfrust::Shaper<'_>,
    meta: Option<&ShapingMeta>,
    text: Seq<char>,
) -> Seq<(u32, i32)> {
    match meta {
        Some(meta) => meta_glyphs(shaper, *meta, text),
        None => guess_shaped(shaper, text),
    }
}

/// Shapes a word: according to `meta` where there is one, else with the
/// script and direction that the shaper guesses from the characters.
///
/// The glyphs are those that the shaper makes of the characters that its
/// buffer takes of the word; a word without characters is made of none.
pub fn shape_word(shaper: &harfrust::Shaper<'_>, meta: Option<&ShapingMeta>, word: &str) -> (r:
    Vec<ShapedGlyph>)
    ensures
        glyph_pairs(r@) == word_glyphs(*shaper, meta, buffered(word@)),
        word@.len() == 0 ==> r@.len() == 0,
{
    let buffer = unicode_buffer(word);
    let shaped = match meta {
        Some(meta) => shape_with_meta(shaper, meta, buffer),
        None => shape_guessing(shaper, buffer),
    };
    let glyphs = shaped_glyphs(&shaped);
    assert(glyph_pairs(glyphs@).len() == glyphs@.len());
    glyphs
}

impl ShapingMeta {
    /// The properties that the plan was made for.
    pub closed spec fn properties(&self) -> ShapingProperties {
        self.properties
    }

    /// The shaper's plan.
    pub closed spec fn plan(&self) -> harfrust::ShapePlan {
        self.shaping_plan
    }

    /// The shaping plan for the words of a word list in `script`, an
    /// ISO 15924 code, and `language`, with the given shaper.
    ///
    /// Fails as `shaping_properties` does.
    pub fn new(script: &str, language: Option<&str>, shaper: &harfrust::Shaper<'_>) -> (r: Result<
        Self,
        ShapingPlanError,
    >)
        ensures
            r.is_ok() == (is_tag(script.spec_bytes()) && language_fits(language)),
            match r {
                Ok(meta) => {
                    &&& iso15924_script(tag_number(padded(script.spec_bytes()))) == Some(
                        meta.properties().script,
                    )
                    &&& meta.properties().direction == match script_direction(
                        meta.properties().script,
                    ) {
                        Some(d) => d,
                        None => TextDirection::LeftToRight,
                    }
                    &&& meta.properties().language.is_some() == language.is_some()
                    &&& language.is_some() ==> meta.properties().language.unwrap()@
                        == language.unwrap()@
                    &&& meta.plan() == shape_plan(
                        *shaper,
                        meta.properties().script,
                        meta.properties().direction,
                        language_view(meta.properties().language),
                    )
                },
                Err(_) => true,
            },
            match r {
                Ok(meta) => true,
                Err(ShapingPlanError::UnknownScriptTag(e)) => !is_tag(script.spec_bytes()) && e
                    == tag_error(script.spec_bytes()),
                Err(ShapingPlanError::UnknownLanguage(e)) => is_tag(script.spec_bytes())
                    && language.is_some() && language.unwrap()@.len() == 0 && e.language@
                    == language.unwrap()@,
            },
    {
        match shaping_properties(script, language) {
            Ok(properties) => {
                let shaping_plan = shape_plan_new(shaper, &properties);
                Ok(ShapingMeta { shaping_plan, properties })
            },
            Err(e) => Err(e),
        }
    }
}

/// The OpenType script tag that differs from the lower-case ISO 15924 code,
/// for the scripts that have one: the old exceptions (`Hira` is `kana`,
/// `Laoo` is `lao `) and the scripts with a second-generation shaping tag
/// (`Deva` is `dev2`). The code and the tag are numbers with the first byte
/// highest.
pub open spec fn special_opentype_tag(code: u32) -> Option<u32> {
    if code == 0x48697261 {
        // `Hira` is `kana`
        Some(0x6b616e61u32)
    } else if code == 0x48726b74 {
        // `Hrkt` is `kana`
        Some(0x6b616e61u32)
    } else if code == 0x4c616f6f {
        // `Laoo` is `lao `
        Some(0x6c616f20u32)
    } else if code == 0x59696969 {
        // `Yiii` is `yi  `
        Some(0x79692020u32)
    } else if code == 0x4e6b6f6f {
        // `Nkoo` is `nko `
        Some(0x6e6b6f20u32)
    } else if code == 0x56616969 {
        // `Vaii` is `vai `
        Some(0x76616920u32)
    } else if code == 0x42656e67 {
        // `Beng` is `bng2`
        Some(0x626e6732u32)
    } else if code == 0x44657661 {
        // `Deva` is `dev2`
        Some(0x64657632u32)
    } else if code == 0x47756a72 {
        // `Gujr` is `gjr2`
        Some(0x676a7232u32)
    } else if code == 0x47757275 {
        // `Guru` is `gur2`
        Some(0x67757232u32)
    } else if code == 0x4b6e6461 {
        // `Knda` is `knd2`
        Some(0x6b6e6432u32)
    } else if code == 0x4d6c796d {
        // `Mlym` is `mlm2`
        Some(0x6d6c6d32u32)
    } else if code == 0x4f727961 {
        // `Orya` is `ory2`
        Some(0x6f727932u32)
    } else if code == 0x54616d6c {
        // `Taml` is `tml2`
        Some(0x746d6c32u32)
    } else if code == 0x54656c75 {
        // `Telu` is `tel2`
        Some(0x74656c32u32)
    } else if code == 0x4d796d72 {
        // `Mymr` is `mym2`
        Some(0x6d796d32u32)
    } else {
        None
    }
}

/// The text in lower case.
pub uninterp spec fn lowercase(text: Seq<char>) -> Seq<char>;

/// The text in lower case, with `str::to_lowercase`.
///
/// Trusted: the result depends on the text alone.
#[verifier::external_body]
fn to_lowercase(text: &str) -> (r: String)
    ensures
        r@ == lowercase(text@),
{
    text.to_lowercase()
}

/// The OpenType script tag for an ISO 15924 script code: the special tag
/// where the script has one, else the code in lower case, which must be a
/// tag.
pub fn iso15924_to_opentype(script: &str) -> (r: Result<u32, InvalidTagError>)
    ensures
        r == opentype_tag_of(script@),
{
    let bytes = script.as_bytes();
    if bytes.len() == 4 {
        let code: u32 = (bytes[0] as u32) * 0x100_0000 + (bytes[1] as u32) * 0x1_0000 + (
        bytes[2] as u32) * 0x100 + (bytes[3] as u32);
        match code {
            0x48697261 => {
                return Ok(0x6b616e61);
            },
            0x48726b74 => {
                return Ok(0x6b616e61);
            },
            0x4c616f6f => {
                return Ok(0x6c616f20);
            },
            0x59696969 => {
                return Ok(0x79692020);
            },
            0x4e6b6f6f => {
                return Ok(0x6e6b6f20);
            },
            0x56616969 => {
                return Ok(0x76616920);
            },
            0x42656e67 => {
                return Ok(0x626e6732);
            },
            0x44657661 => {
                return Ok(0x64657632);
            },
            0x47756a72 => {
                return Ok(0x676a7232);
            },
            0x47757275 => {
                return Ok(0x67757232);
            },
            0x4b6e6461 => {
                return Ok(0x6b6e6432);
            },
            0x4d6c796d => {
                return Ok(0x6d6c6d32);
            },
            0x4f727961 => {
                return Ok(0x6f727932);
            },
            0x54616d6c => {
                return Ok(0x746d6c32);
            },
            0x54656c75 => {
                return Ok(0x74656c32);
            },
            0x4d796d72 => {
                return Ok(0x6d796d32);
            },
            _ => {},
        }
    }
    let lower = to_lowercase(script);
    parse_tag(lower.as_str().as_bytes())
}

/// What `iso15924_to_opentype` gives for a script code.
pub open spec fn opentype_tag_of(script: Seq<char>) -> Result<u32, InvalidTagError> {
    let bytes = encode_utf8(script);
    if bytes.len() == 4 && special_opentype_tag(tag_number(bytes)).is_some() {
        Ok(special_opentype_tag(tag_number(bytes)).unwrap())
    } else {
        let lower = encode_utf8(lowercase(script));
        if is_tag(lower) {
            Ok(tag_number(padded(lower)))
        } else {
            Err(tag_error(lower))
        }
    }
}

/// The direction and the script that the shaper guesses for a text from
/// its characters; none where it can guess no direction.
pub uninterp spec fn guessed(text: Seq<char>) -> Option<(TextDirection, u32)>;

/// Guesses the direction and the script of a text, with
/// `harfrust::UnicodeBuffer::guess_segment_properties`.
///
/// Trusted: the guess depends on the text alone.
#[verifier::external_body]
fn guess_segment_properties(text: &str) -> (r: Option<(TextDirection, u32)>)
    ensures
        r == guessed(text@),
{
    let mut buffer = harfrust::UnicodeBuffer::new();
    buffer.push_str(text);
    buffer.guess_segment_properties();
    let script = u32::from_be_bytes(buffer.script().tag().to_be_bytes());
    match buffer.direction() {
        harfrust::Direction::LeftToRight => Some((TextDirection::LeftToRight, script)),
        harfrust::Direction::RightToLeft => Some((TextDirection::RightToLeft, script)),
        harfrust::Direction::TopToBottom => Some((TextDirection::TopToBottom, script)),
        harfrust::Direction::BottomToTop => Some((TextDirection::BottomToTop, script)),
        harfrust::Direction::Invalid => None,
    }
}

/// How many words at the start of a word list are looked at for its
/// direction and script.
pub const PROPERTY_WORDS: usize = 20;

/// Whether the guess for a word tells the direction and script of its list:
/// whether there is one, and its script is a known one.
pub open spec fn tells(guess: Option<(TextDirection, u32)>) -> bool {
    guess.is_some() && guess.unwrap().1 != UNKNOWN
}

/// The place of the first word from `from` on, among the first `limit`
/// words, whose guess tells direction and script; `limit` where none does.
pub open spec fn first_telling(words: Seq<String>, from: int, limit: int) -> int
    decreases limit - from,
{
    if from < 0 || from >= limit || from >= words.len() {
        limit
    } else if tells(guessed(words[from]@)) {
        from
    } else {
        first_telling(words, from + 1, limit)
    }
}

impl WordList {
    /// The direction and the script of the words, guessed from the first of
    /// the first twenty words for which the shaper can tell both.
    pub fn properties(&self) -> (r: Option<(TextDirection, u32)>)
        ensures
            r == {
                let at = first_telling(self.words(), 0, PROPERTY_WORDS as int);
                if at < PROPERTY_WORDS && at < self.words().len() {
                    guessed(self.words()[at]@)
                } else {
                    None
                }
            },
    {
        let mut i: usize = 0;
        while i < PROPERTY_WORDS && i < self.len()
            invariant
                i <= PROPERTY_WORDS,
                first_telling(self.words(), 0, PROPERTY_WORDS as int) == first_telling(
                    self.words(),
                    i as int,
                    PROPERTY_WORDS as int,
                ),
            decreases PROPERTY_WORDS - i,
        {
            match self.get(i) {
                Some(word) => {
                    let guess = guess_segment_properties(word);
                    match guess {
                        Some((direction, script)) => {
                            if script != UNKNOWN {
                                return Some((direction, script));
                            }
                        },
                        None => {},
                    }
                },
                None => {},
            }
            i = i + 1;
        }
        None
    }
}

/// How many words of a list of `len` words are tested.
pub open spec fn tested(len: nat, k_words: Option<usize>) -> nat {
    match k_words {
        Some(k) => if k < len {
            k as nat
        } else {
            len
        },
        None => len,
    }
}

/// The glyphs that the pairs of number and vertical offset stand for.
pub open spec fn glyphs_from(pairs: Seq<(u32, i32)>) -> Seq<ShapedGlyph> {
    Seq::new(pairs.len(), |i: int| ShapedGlyph { glyph_id: pairs[i].0, y_offset: pairs[i].1 })
}

/// The first `n` of `words`, each with the glyphs that the shaper makes of
/// it, according to `meta` where there is one.
pub open spec fn meta_shapes(
    shaper: harfrust::Shaper<'_>,
    meta: Option<&ShapingMeta>,
    words: Seq<String>,
    n: nat,
) -> Seq<(String, Seq<ShapedGlyph>)> {
    Seq::new(
        n,
        |i: int| (words[i], glyphs_from(word_glyphs(shaper, meta, buffered(words[i]@)))),
    )
}

/// The script that the metadata of a word list names to the shaper.
pub open spec fn list_script(word_list: &WordList) -> u32 {
    iso15924_script(
        tag_number(padded(encode_utf8(word_list.metadata().script.unwrap()@))),
    ).unwrap()
}

/// The direction in which the words of a word list with a script are
/// shaped: that of the script, or left to right where it has none.
pub open spec fn list_direction(word_list: &WordList) -> TextDirection {
    match script_direction(list_script(word_list)) {
        Some(d) => d,
        None => TextDirection::LeftToRight,
    }
}

/// The glyphs that the shaper makes of a text of a word list: by guessing
/// for a list without a script, else according to the plan that it makes
/// for the script, its direction and the language of the list.
pub open spec fn list_glyphs(shaper: harfrust::Shaper<'_>, word_list: &WordList, text: Seq<char>)
    -> Seq<(u32, i32)> {
    if word_list.metadata().script.is_none() {
        guess_shaped(shaper, text)
    } else {
        plan_shaped(
            shaper,
            shape_plan(
                shaper,
                list_script(word_list),
                list_direction(word_list),
                language_view(word_list.metadata().language),
            ),
            list_script(word_list),
            list_direction(word_list),
            language_view(word_list.metadata().language),
            text,
        )
    }
}

/// The words of a word list that are tested, each with the glyphs that the
/// shaper makes of it.
pub open spec fn listed_shapes(
    shaper: harfrust::Shaper<'_>,
    word_list: &WordList,
    k_words: Option<usize>,
) -> Seq<(String, Seq<ShapedGlyph>)> {
    Seq::new(
        tested(word_list.words().len(), k_words),
        |i: int|
            (
                word_list.words()[i],
                glyphs_from(list_glyphs(shaper, word_list, buffered(word_list.words()[i]@))),
            ),
    )
}

/// Whether the script and language of a word list can be used for shaping;
/// a list without a script is shaped by guessing, whatever its language.
pub open spec fn metadata_fits(word_list: &WordList) -> bool {
    let m = word_list.metadata();
    m.script.is_some() ==> is_tag(encode_utf8(m.script.unwrap()@)) && (m.language.is_some()
        ==> m.language.unwrap()@.len() > 0)
}

/// The shaping plan for a word list, from its script and language; none
/// for a list without a script. Fails, with the name of the list, if the
/// script is no tag or the language is empty.
pub fn word_list_meta(word_list: &WordList, shaper: &harfrust::Shaper<'_>) -> (r: Result<
    Option<ShapingMeta>,
    WordListShapingPlanError,
>)
    ensures
        match r {
            Ok(meta) => {
                &&& metadata_fits(word_list)
                &&& meta.is_some() == word_list.metadata().script.is_some()
                &&& meta.is_some() ==> {
                    let m = meta.unwrap();
                    &&& m.properties().script == list_script(word_list)
                    &&& m.properties().direction == list_direction(word_list)
                    &&& language_view(m.properties().language) == language_view(
                        word_list.metadata().language,
                    )
                    &&& m.plan() == shape_plan(
                        *shaper,
                        list_script(word_list),
                        list_direction(word_list),
                        language_view(word_list.metadata().language),
                    )
                }
            },
            Err(e) => !metadata_fits(word_list) && e.word_list_name@ == word_list.metadata().name@,
        },
{
    match word_list.script() {
        None => Ok(None),
        Some(script) => match ShapingMeta::new(script, word_list.language(), shaper) {
            Ok(meta) => Ok(Some(meta)),
            Err(inner) => Err(
                WordListShapingPlanError { word_list_name: word_list.name().to_owned(), inner },
            ),
        },
    }
}

/// Shapes the first `k_words` words of a word list, or all of them, in
/// their order: each word comes with the glyphs that the shaper makes of
/// it.
pub fn shape_word_list(
    shaper: &harfrust::Shaper<'_>,
    meta: Option<&ShapingMeta>,
    word_list: &WordList,
    k_words: Option<usize>,
) -> (r: Vec<ShapedWord>)
    ensures
        shapes_of(r@) == meta_shapes(
            *shaper,
            meta,
            word_list.words(),
            tested(word_list.words().len(), k_words),
        ),
{
    let len = word_list.len();
    let limit: usize = match k_words {
        Some(k) => if k < len {
            k
        } else {
            len
        },
        None => len,
    };
    let mut shaped: Vec<ShapedWord> = Vec::new();
    let mut i: usize = 0;
    while i < limit
        invariant
            i <= limit <= word_list.words().len(),
            shaped@.len() == i,
            shapes_of(shaped@) == meta_shapes(*shaper, meta, word_list.words(), i as nat),
        decreases limit - i,
    {
        let ghost before = shaped@;
        match word_list.word(i) {
            Some(word) => {
                let glyphs = shape_word(shaper, meta, word.as_str());
                assert(glyphs@ =~= glyphs_from(glyph_pairs(glyphs@)));
                shaped.push(ShapedWord { word, glyphs });
            },
            None => {},
        }
        proof {
            let want = meta_shapes(*shaper, meta, word_list.words(), (i + 1) as nat);
            assert(shapes_of(before) == meta_shapes(*shaper, meta, word_list.words(), i as nat));
            assert forall|j: int| 0 <= j <= i implies shapes_of(shaped@)[j] == want[j] by {
                if j < i {
                    assert(shaped@[j] == before[j]);
                    assert(shapes_of(before)[j] == meta_shapes(
                        *shaper,
                        meta,
                        word_list.words(),
                        i as nat,
                    )[j]);
                }
            }
            assert(shapes_of(shaped@) =~= want);
        }
        i = i + 1;
    }
    shaped
}

/// What a report on words with their glyphs is: there exactly where the
/// reporter holds bounds for every glyph of every word that can be
/// measured, and then with the `n_exemplars` lowest-reaching and the
/// `n_exemplars` highest-reaching of the words that can be measured; else
/// the failure that a glyph has no bounds.
pub open spec fn shapes_outcome(
    r: Result<Report<'_>, FontHeightError>,
    reporter: &InstanceReporter,
    word_list: &WordList,
    shapes: Seq<(String, Seq<ShapedGlyph>)>,
    n_exemplars: nat,
) -> bool {
    &&& r.is_ok() == shapes_covered(shapes, reporter.bounds())
    &&& match r {
        Ok(report) => {
            &&& report.exemplars.lows() == most_extreme(
                Side::Lowest,
                shapes_measured(shapes, reporter.bounds()),
                n_exemplars,
            )
            &&& report.exemplars.highs() == most_extreme(
                Side::Highest,
                shapes_measured(shapes, reporter.bounds()),
                n_exemplars,
            )
            &&& report.word_list == word_list
            &&& report.location.entries() == reporter.entries()
            &&& report.exemplars.wf()
        },
        Err(FontHeightError::UnknownGlyph) => true,
        Err(_) => false,
    }
}

/// Tests a word list at the reporter's location: shapes its first
/// `k_words` words, or all of them, measures those that can be measured,
/// and keeps the `n_exemplars` that reach lowest and the `n_exemplars` that
/// reach highest.
///
/// Fails if the metadata of the word list cannot be used for shaping; else
/// exactly where the shaper makes of a word that can be measured a glyph
/// for which the reporter holds no bounds. Where none of the words can be
/// measured, the report holds no word.
pub fn check_word_list<'a>(
    reporter: &'a InstanceReporter,
    shaper: &harfrust::Shaper<'_>,
    word_list: &'a WordList,
    k_words: Option<usize>,
    n_exemplars: usize,
) -> (r: Result<Report<'a>, FontHeightError>)
    requires
        reporter.wf(),
        n_exemplars >= 1,
    ensures
        !metadata_fits(word_list) ==> match r {
            Err(FontHeightError::WordListMetadata(e)) => e.word_list_name@
                == word_list.metadata().name@,
            _ => false,
        },
        metadata_fits(word_list) ==> shapes_outcome(
            r,
            reporter,
            word_list,
            listed_shapes(*shaper, word_list, k_words),
            n_exemplars as nat,
        ),
        metadata_fits(word_list) && none_measurable(listed_shapes(*shaper, word_list, k_words))
            ==> match r {
            Ok(report) => report.exemplars.lows().len() == 0 && report.exemplars.highs().len()
                == 0,
            Err(_) => false,
        },
{
    let meta = match word_list_meta(word_list, shaper) {
        Ok(meta) => meta,
        Err(e) => {
            return Err(FontHeightError::WordListMetadata(e));
        },
    };
    let plan = meta.as_ref();
    let shaped = shape_word_list(shaper, plan, word_list, k_words);
    proof {
        let n = tested(word_list.words().len(), k_words);
        assert forall|text: Seq<char>|
            word_glyphs(*shaper, plan, text) == list_glyphs(*shaper, word_list, text) by {}
        assert(meta_shapes(*shaper, plan, word_list.words(), n) =~= listed_shapes(
            *shaper,
            word_list,
            k_words,
        ));
        lemma_shapes(shaped@, reporter.bounds());
    }
    report_of(reporter, word_list, &shaped, n_exemplars)
}

} // verus!
