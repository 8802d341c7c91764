use fontheight::errors::FontHeightError;
use fontheight::extremes::{VerticalExtremes, WordExtremes, UNIT};
use fontheight::font::Reporter;
use fontheight::instance::DrawnGlyph;
use fontheight::locations::Location;
use fontheight::reporter::{InstanceReporter, Report};
use fontheight::word_lists::{WordList, WordListMetadata};

fn be16(out: &mut Vec<u8>, v: u16) {
    out.extend_from_slice(&v.to_be_bytes());
}

fn be32(out: &mut Vec<u8>, v: u32) {
    out.extend_from_slice(&v.to_be_bytes());
}

/// A font file of five glyphs without outlines, in which `A` is glyph 1,
/// `y` glyph 2, `x` glyph 3 and `z` glyph 4.
fn toy_font() -> Vec<u8> {
    font_with(None)
}

const WGHT: u32 = 0x7767_6874;
const WDTH: u32 = 0x7764_7468;

/// The toy font with a weight axis from 100 over 400 to 900, a width axis
/// from 75 over 100 to 100, and the named instances (700, 100) and
/// (400, 87.5).
fn variable_toy_font() -> Vec<u8> {
    let mut fvar = Vec::new();
    be16(&mut fvar, 1);
    be16(&mut fvar, 0);
    be16(&mut fvar, 16);
    be16(&mut fvar, 2);
    be16(&mut fvar, 2);
    be16(&mut fvar, 20);
    be16(&mut fvar, 2);
    be16(&mut fvar, 12);
    for (tag, min, default, max) in [(WGHT, 100, 400, 900), (WDTH, 75, 100, 100)] {
        be32(&mut fvar, tag);
        be32(&mut fvar, min << 16);
        be32(&mut fvar, default << 16);
        be32(&mut fvar, max << 16);
        be16(&mut fvar, 0);
        be16(&mut fvar, 256);
    }
    for (weight, width) in [(700 << 16, 100 << 16), (400 << 16, (87 << 16) + 0x8000)] {
        be16(&mut fvar, 257);
        be16(&mut fvar, 0);
        be32(&mut fvar, weight);
        be32(&mut fvar, width);
    }
    font_with(Some(fvar))
}

fn font_with(fvar: Option<Vec<u8>>) -> Vec<u8> {
    let mut cmap = Vec::new();
    be16(&mut cmap, 0);
    be16(&mut cmap, 1);
    be16(&mut cmap, 3);
    be16(&mut cmap, 10);
    be32(&mut cmap, 12);
    let groups: [(u32, u32); 4] = [(65, 1), (120, 3), (121, 2), (122, 4)];
    be16(&mut cmap, 12);
    be16(&mut cmap, 0);
    be32(&mut cmap, 16 + 12 * groups.len() as u32);
    be32(&mut cmap, 0);
    be32(&mut cmap, groups.len() as u32);
    for (code, glyph) in groups {
        be32(&mut cmap, code);
        be32(&mut cmap, code);
        be32(&mut cmap, glyph);
    }

    let mut head = Vec::new();
    be32(&mut head, 0x0001_0000);
    be32(&mut head, 0x0001_0000);
    be32(&mut head, 0);
    be32(&mut head, 0x5F0F_3CF5);
    be16(&mut head, 0);
    be16(&mut head, 1000);
    head.extend_from_slice(&[0; 16]);
    head.extend_from_slice(&[0; 8]);
    be16(&mut head, 0);
    be16(&mut head, 8);
    be16(&mut head, 2);
    be16(&mut head, 0);
    be16(&mut head, 0);

    let mut hhea = Vec::new();
    be32(&mut hhea, 0x0001_0000);
    be16(&mut hhea, 800);
    be16(&mut hhea, (-200i16) as u16);
    be16(&mut hhea, 0);
    be16(&mut hhea, 500);
    hhea.extend_from_slice(&[0; 22]);
    be16(&mut hhea, 5);

    let mut hmtx = Vec::new();
    for _ in 0..5 {
        be16(&mut hmtx, 500);
        be16(&mut hmtx, 0);
    }

    let mut maxp = Vec::new();
    be32(&mut maxp, 0x0000_5000);
    be16(&mut maxp, 5);

    let mut tables: Vec<(&[u8; 4], Vec<u8>)> = vec![(b"cmap", cmap)];
    if let Some(fvar) = fvar {
        tables.push((b"fvar", fvar));
    }
    tables.extend([(b"head", head), (b"hhea", hhea), (b"hmtx", hmtx), (b"maxp", maxp)]);
    let mut font = Vec::new();
    be32(&mut font, 0x0001_0000);
    be16(&mut font, tables.len() as u16);
    be16(&mut font, 64);
    be16(&mut font, 2);
    be16(&mut font, 16);
    let mut offset = 12 + 16 * tables.len() as u32;
    for (tag, data) in &tables {
        font.extend_from_slice(*tag);
        be32(&mut font, 0);
        be32(&mut font, offset);
        be32(&mut font, data.len() as u32);
        offset += (data.len() as u32 + 3) / 4 * 4;
    }
    for (_, data) in &tables {
        font.extend_from_slice(data);
        while font.len() % 4 != 0 {
            font.push(0);
        }
    }
    font
}

/// The shaper's variation settings for a location of the font.
fn settings(reporter: &Reporter, location: &Location) -> harfrust::ShaperInstance {
    harfrust::ShaperInstance::from_variations(
        reporter.fontref(),
        location.to_harfrust().into_iter().map(|(tag, value)| harfrust::Variation {
            tag: harfrust::Tag::from_u32(tag),
            value: value as f32 / 65536.0,
        }),
    )
}

/// Tests a word list with the font set to the location of the instance.
fn check<'r>(
    reporter: &Reporter,
    instance: &'r InstanceReporter,
    word_list: &'r WordList,
    k_words: Option<usize>,
    n_exemplars: usize,
) -> Result<Report<'r>, FontHeightError> {
    let settings = settings(reporter, instance.location());
    reporter.par_check(instance, &settings, word_list, k_words, n_exemplars)
}

fn drawn(glyph_id: u32, lowest: i64, highest: i64) -> DrawnGlyph {
    DrawnGlyph { glyph_id, outcome: Ok(VerticalExtremes::new(lowest * UNIT, highest * UNIT)) }
}

fn toy_bounds() -> Vec<DrawnGlyph> {
    vec![drawn(0, 0, 500), drawn(1, 0, 700), drawn(2, -20, 450), drawn(3, 0, 450), drawn(4, -5, 440)]
}

fn entry(word: &str, lowest: i64, highest: i64) -> WordExtremes {
    WordExtremes::new(word.to_string(), VerticalExtremes::new(lowest * UNIT, highest * UNIT))
}

#[test]
fn font_without_variations_has_one_location() {
    let bytes = toy_font();
    let reporter = Reporter::new(&bytes).unwrap();
    assert!(reporter.axis_tags().is_empty());
    let locations = reporter.interesting_locations();
    assert_eq!(locations.len(), 1);
    assert_eq!(locations[0].len(), 0);
}

#[test]
fn variable_font_has_the_product_of_its_coordinates() {
    let bytes = variable_toy_font();
    let reporter = Reporter::new(&bytes).unwrap();
    assert_eq!(reporter.axis_tags(), vec![WGHT, WDTH]);
    let got: Vec<Vec<(u32, i32)>> =
        reporter.interesting_locations().iter().map(|l| l.to_harfrust()).collect();
    let mut expected = Vec::new();
    for weight in [100 << 16, 400 << 16, 700 << 16, 900 << 16] {
        for width in [75 << 16, (87 << 16) + 0x8000, 100 << 16] {
            expected.push(vec![(WDTH, width), (WGHT, weight)]);
        }
    }
    assert_eq!(got, expected);
}

#[test]
fn variable_font_is_measured_at_a_location() {
    let bytes = variable_toy_font();
    let reporter = Reporter::new(&bytes).unwrap();
    let locations = reporter.interesting_locations();
    let word_list = WordList::define("toy".to_string(), vec!["Ay".to_string(), "xz".to_string()]);
    for location in locations {
        let instance = reporter.instance(location, toy_bounds()).unwrap();
        let report = check(&reporter, &instance, &word_list, None, 1).unwrap();
        assert_eq!(report.exemplars.lowest(), &[entry("Ay", -20, 700)]);
        assert_eq!(report.location.len(), 2);
    }
    let mut elsewhere = Location::new();
    elsewhere.set(0x6974_616c, 1 << 16);
    match reporter.instance(elsewhere, toy_bounds()) {
        Err(FontHeightError::MismatchedAxes(e)) => assert_eq!(e.extras, vec![0x6974_616c]),
        other => panic!("unexpected: {:?}", other.map(|_| ())),
    }
}

#[test]
fn shaped_word_list_is_measured() {
    let bytes = toy_font();
    let reporter = Reporter::new(&bytes).unwrap();
    let instance = reporter.default_instance(toy_bounds()).unwrap();
    let word_list = WordList::define("toy".to_string(), vec!["Ay".to_string(), "xyz".to_string()]);
    let report = check(&reporter, &instance, &word_list, None, 1).unwrap();
    assert_eq!(report.exemplars.lowest(), &[entry("Ay", -20, 700)]);
    assert_eq!(report.exemplars.highest(), &[entry("Ay", -20, 700)]);

    let two = check(&reporter, &instance, &word_list, None, 2).unwrap();
    assert_eq!(two.exemplars.lowest(), &[entry("Ay", -20, 700), entry("xyz", -20, 450)]);
    assert_eq!(two.exemplars.highest(), &[entry("Ay", -20, 700), entry("xyz", -20, 450)]);

    let first = check(&reporter, &instance, &word_list, Some(1), 2).unwrap();
    assert_eq!(first.exemplars.len(), 1);
}

#[test]
fn words_with_missing_glyphs_are_left_out() {
    let bytes = toy_font();
    let reporter = Reporter::new(&bytes).unwrap();
    let instance = reporter.default_instance(toy_bounds()).unwrap();
    let word_list = WordList::define(
        "toy".to_string(),
        vec!["Aq".to_string(), "".to_string(), "zz".to_string(), "q".to_string()],
    );
    let report = check(&reporter, &instance, &word_list, None, 3).unwrap();
    assert_eq!(report.exemplars.lowest(), &[entry("zz", -5, 440)]);
    assert_eq!(report.exemplars.highest(), &[entry("zz", -5, 440)]);
}

#[test]
fn word_list_with_a_script_is_shaped_by_plan() {
    let bytes = toy_font();
    let reporter = Reporter::new(&bytes).unwrap();
    let instance = reporter.default_instance(toy_bounds()).unwrap();
    let metadata =
        WordListMetadata::new("latin".to_string(), Some("Latn".to_string()), Some("en".to_string()));
    let word_list = WordList::new(metadata, vec!["Ay".to_string(), "xyz".to_string()]);
    let report = check(&reporter, &instance, &word_list, None, 1).unwrap();
    assert_eq!(report.exemplars.lowest(), &[entry("Ay", -20, 700)]);
    assert_eq!(report.exemplars.highest(), &[entry("Ay", -20, 700)]);
}

#[test]
fn word_list_with_bad_metadata_is_refused() {
    let bytes = toy_font();
    let reporter = Reporter::new(&bytes).unwrap();
    let instance = reporter.default_instance(toy_bounds()).unwrap();
    let metadata = WordListMetadata::new("odd".to_string(), Some("Latin".to_string()), None);
    let word_list = WordList::new(metadata, vec!["Ay".to_string()]);
    match check(&reporter, &instance, &word_list, None, 1) {
        Err(FontHeightError::WordListMetadata(e)) => assert_eq!(e.word_list_name, "odd"),
        other => panic!("unexpected: {:?}", other.map(|_| ())),
    }
}

#[test]
fn glyph_without_bounds_is_reported() {
    let bytes = toy_font();
    let reporter = Reporter::new(&bytes).unwrap();
    let instance = reporter.default_instance(vec![drawn(0, 0, 500), drawn(1, 0, 700)]).unwrap();
    let word_list = WordList::define("toy".to_string(), vec!["Ay".to_string()]);
    assert!(matches!(
        check(&reporter, &instance, &word_list, None, 1),
        Err(FontHeightError::UnknownGlyph)
    ));
}

#[test]
fn word_without_characters_has_no_glyphs() {
    let bytes = toy_font();
    let reporter = Reporter::new(&bytes).unwrap();
    let instance = reporter.default_instance(toy_bounds()).unwrap();
    let plain = WordList::define("empty".to_string(), vec!["".to_string()]);
    assert!(check(&reporter, &instance, &plain, None, 2).unwrap().exemplars.is_empty());
    let metadata = WordListMetadata::new("empty".to_string(), Some("Latn".to_string()), None);
    let planned = WordList::new(metadata, vec!["".to_string()]);
    assert!(check(&reporter, &instance, &planned, None, 2).unwrap().exemplars.is_empty());
}

#[test]
fn no_words_to_test_is_no_failure() {
    let bytes = toy_font();
    let reporter = Reporter::new(&bytes).unwrap();
    let instance = reporter.default_instance(vec![drawn(0, 0, 500)]).unwrap();
    let word_list = WordList::define("toy".to_string(), vec!["Ay".to_string()]);
    let report = check(&reporter, &instance, &word_list, Some(0), 1).unwrap();
    assert!(report.exemplars.is_empty());
    let empty = WordList::define("none".to_string(), Vec::new());
    assert!(check(&reporter, &instance, &empty, None, 1).unwrap().exemplars.is_empty());
    assert!(matches!(
        check(&reporter, &instance, &word_list, Some(1), 1),
        Err(FontHeightError::UnknownGlyph)
    ));
}

#[test]
fn list_of_unmeasurable_words_gives_an_empty_report() {
    let bytes = toy_font();
    let reporter = Reporter::new(&bytes).unwrap();
    let instance = reporter.default_instance(vec![drawn(0, 0, 500)]).unwrap();
    let word_list = WordList::define(
        "toy".to_string(),
        vec!["".to_string(), "q".to_string(), "Aq".to_string(), "qqq".to_string()],
    );
    let report = check(&reporter, &instance, &word_list, None, 2).unwrap();
    assert!(report.exemplars.is_empty());
}

#[test]
fn extras_of_a_location_name_each_axis_once() {
    let bytes = variable_toy_font();
    let reporter = Reporter::new(&bytes).unwrap();
    let mut location = Location::new();
    location.set(0x6974_616c, 1 << 16);
    location.set(WGHT, 400 << 16);
    location.set(0x6f70_737a, 12 << 16);
    location.set(0x6974_616c, 0);
    match reporter.instance(location, toy_bounds()) {
        Err(FontHeightError::MismatchedAxes(e)) => {
            assert_eq!(e.extras, vec![0x6974_616c, 0x6f70_737a])
        },
        other => panic!("unexpected: {:?}", other.map(|_| ())),
    }
}
