use fontheight::errors::FontHeightError;
use fontheight::extremes::{VerticalExtremes, WordExtremes, UNIT};
use fontheight::font::Reporter;
use fontheight::instance::{DrawnGlyph, InstanceExtremes, ShapedGlyph, COORD_LIMIT};
use fontheight::locations::Location;
use fontheight::reporter::{report_of, InstanceReporter, ShapedWord};
use fontheight::word_lists::WordList;

// Bounds in whole design units.
fn units(lowest: i64, highest: i64) -> VerticalExtremes {
    VerticalExtremes::new(lowest * UNIT, highest * UNIT)
}

fn drawn(glyph_id: u32, lowest: i64, highest: i64) -> DrawnGlyph {
    DrawnGlyph { glyph_id, outcome: Ok(units(lowest, highest)) }
}

fn glyph(glyph_id: u32, y_offset: i32) -> ShapedGlyph {
    ShapedGlyph { glyph_id, y_offset }
}

fn shaped(word: &str, glyphs: Vec<ShapedGlyph>) -> ShapedWord {
    ShapedWord { word: word.to_string(), glyphs }
}

fn entry(word: &str, lowest: i64, highest: i64) -> WordExtremes {
    WordExtremes::new(word.to_string(), units(lowest, highest))
}

// Glyphs: 1 = A, 2 = y, 3 = x, 4 = z, 5 = a mark that shaping raises.
fn toy_reporter() -> InstanceReporter {
    let glyphs = vec![
        drawn(0, 0, 500),
        drawn(1, 0, 700),
        drawn(2, -20, 450),
        drawn(3, 0, 450),
        drawn(4, -5, 440),
        drawn(5, 0, 100),
    ];
    InstanceReporter::new(Location::new(), &Vec::new(), glyphs).unwrap()
}

#[test]
fn word_extent_is_the_span_of_its_placed_glyphs() {
    let reporter = toy_reporter();
    let cache = reporter.instance_extremes();
    assert_eq!(cache.get(2), Some(units(-20, 450)));
    assert_eq!(cache.get(9), None);
    assert_eq!(
        cache.word_extremes(&vec![glyph(1, 0), glyph(2, 0)]),
        Some(units(-20, 700))
    );
    assert_eq!(
        cache.word_extremes(&vec![glyph(3, 0), glyph(5, 650)]),
        Some(units(0, 750))
    );
    assert_eq!(cache.word_extremes(&vec![glyph(2, -30)]), Some(units(-50, 420)));
}

#[test]
fn empty_and_missing_glyph_words_have_no_extent() {
    let reporter = toy_reporter();
    let cache = reporter.instance_extremes();
    assert_eq!(cache.word_extremes(&Vec::new()), None);
    assert_eq!(cache.word_extremes(&vec![glyph(1, 0), glyph(0, 0), glyph(2, 0)]), None);
    assert!(!InstanceExtremes::is_measurable(&Vec::new()));
    assert!(!InstanceExtremes::is_measurable(&vec![glyph(0, 0)]));
    assert!(InstanceExtremes::is_measurable(&vec![glyph(7, 0)]));
    assert!(!cache.covers(&vec![glyph(1, 0), glyph(7, 0)]));
    assert!(cache.covers(&vec![glyph(1, 0), glyph(5, 0)]));
}

#[test]
fn ay_is_both_the_lowest_and_the_highest_word() {
    let reporter = toy_reporter();
    let word_list = WordList::define("toy".to_string(), vec!["Ay".to_string(), "xyz".to_string()]);
    let words = vec![
        shaped("Ay", vec![glyph(1, 0), glyph(2, 0)]),
        shaped("xyz", vec![glyph(3, 0), glyph(4, 0), glyph(4, 0)]),
    ];
    assert!(reporter.covers_all(&words));
    let report = reporter.check(&word_list, &words, None, 1);
    assert_eq!(report.exemplars.lowest(), &[entry("Ay", -20, 700)]);
    assert_eq!(report.exemplars.highest(), &[entry("Ay", -20, 700)]);
    assert_eq!(report.word_list.name(), "toy");
    assert_eq!(report.location.len(), 0);
}

#[test]
fn unmeasurable_words_are_invisible_to_the_collector() {
    let reporter = toy_reporter();
    let word_list = WordList::define("toy".to_string(), Vec::new());
    let with = vec![
        shaped("", Vec::new()),
        shaped("Ay", vec![glyph(1, 0), glyph(2, 0)]),
        shaped("A?", vec![glyph(1, 5000), glyph(0, -5000)]),
        shaped("x", vec![glyph(3, 0)]),
    ];
    let without = vec![shaped("Ay", vec![glyph(1, 0), glyph(2, 0)]), shaped("x", vec![glyph(3, 0)])];
    let a = reporter.check(&word_list, &with, None, 3);
    let b = reporter.check(&word_list, &without, None, 3);
    assert_eq!(a.exemplars.lowest(), b.exemplars.lowest());
    assert_eq!(a.exemplars.highest(), b.exemplars.highest());
    assert_eq!(a.exemplars.lowest(), &[entry("Ay", -20, 700), entry("x", 0, 450)]);
    assert_eq!(a.exemplars.len(), 2);
}

#[test]
fn only_the_first_k_words_are_tested() {
    let reporter = toy_reporter();
    let word_list = WordList::define("toy".to_string(), Vec::new());
    let words = vec![
        shaped("x", vec![glyph(3, 0)]),
        shaped("z", vec![glyph(4, 0)]),
        shaped("Ay", vec![glyph(1, 0), glyph(2, 0)]),
    ];
    let report = reporter.check(&word_list, &words, Some(2), 1);
    assert_eq!(report.exemplars.lowest(), &[entry("z", -5, 440)]);
    assert_eq!(report.exemplars.highest(), &[entry("x", 0, 450)]);
    let all = reporter.check(&word_list, &words, Some(10), 1);
    assert_eq!(all.exemplars.lowest(), &[entry("Ay", -20, 700)]);
}

#[test]
fn sharded_check_reaches_as_far_as_the_sequential_one() {
    let reporter = toy_reporter();
    let word_list = WordList::define("toy".to_string(), Vec::new());
    let words = vec![
        shaped("x", vec![glyph(3, 0)]),
        shaped("z", vec![glyph(4, 0)]),
        shaped("Ay", vec![glyph(1, 0), glyph(2, 0)]),
        shaped("y", vec![glyph(2, 0)]),
        shaped("A", vec![glyph(1, 0)]),
        shaped("xm", vec![glyph(3, 0), glyph(5, 650)]),
        shaped("?", vec![glyph(0, 0)]),
    ];
    let whole = reporter.check(&word_list, &words, None, 2);
    for shard_len in 1..9 {
        let sharded = reporter.par_check(&word_list, &words, None, 2, shard_len);
        let lows = |e: &[WordExtremes]| e.iter().map(|w| w.lowest()).collect::<Vec<_>>();
        let highs = |e: &[WordExtremes]| e.iter().map(|w| w.highest()).collect::<Vec<_>>();
        assert_eq!(lows(sharded.exemplars.lowest()), lows(whole.exemplars.lowest()));
        assert_eq!(highs(sharded.exemplars.highest()), highs(whole.exemplars.highest()));
    }
    assert_eq!(whole.exemplars.highest(), &[entry("xm", 0, 750), entry("Ay", -20, 700)]);
}

#[test]
fn walk_hands_out_the_measurable_words() {
    let reporter = toy_reporter();
    let words = vec![
        shaped("?", vec![glyph(0, 0)]),
        shaped("x", vec![glyph(3, 0)]),
        shaped("", Vec::new()),
        shaped("Ay", vec![glyph(1, 0), glyph(2, 0)]),
        shaped("??", vec![glyph(0, 0), glyph(0, 0)]),
    ];
    let mut walk = reporter.to_word_extremes_iter(&words);
    assert_eq!(walk.next(), Some(entry("x", 0, 450)));
    assert_eq!(walk.next(), Some(entry("Ay", -20, 700)));
    assert_eq!(walk.next(), None);
    assert_eq!(walk.next(), None);
}

#[test]
fn cache_fails_on_the_first_glyph_that_cannot_be_used() {
    let glyphs = vec![
        drawn(0, 0, 1),
        DrawnGlyph { glyph_id: 7, outcome: Err("no outline".to_string()) },
        DrawnGlyph { glyph_id: 8, outcome: Err("later".to_string()) },
    ];
    match InstanceExtremes::new(&Location::new(), &Vec::new(), glyphs) {
        Err(FontHeightError::Drawing(e)) => {
            assert_eq!(e.glyph_id, 7);
            assert_eq!(e.reason, "no outline");
        },
        other => panic!("unexpected: {:?}", other.map(|_| ())),
    }
    let bounds = |glyph_id: u32, highest: i64| DrawnGlyph {
        glyph_id,
        outcome: Ok(VerticalExtremes::new(0, highest)),
    };
    let far = vec![bounds(3, COORD_LIMIT), bounds(4, COORD_LIMIT + 1)];
    assert!(matches!(
        InstanceExtremes::new(&Location::new(), &Vec::new(), far),
        Err(FontHeightError::GlyphBounds(4))
    ));
    let unordered = vec![DrawnGlyph {
        glyph_id: 2,
        outcome: Ok(VerticalExtremes { lowest: 5, highest: 4 }),
    }];
    assert!(matches!(
        InstanceExtremes::new(&Location::new(), &Vec::new(), unordered),
        Err(FontHeightError::GlyphBounds(2))
    ));
}

#[test]
fn cache_fails_on_axes_that_the_font_lacks() {
    let mut location = Location::new();
    location.set(0x7767_6874, 400 * 65536);
    match InstanceExtremes::new(&location, &vec![0x7764_7468], vec![drawn(0, 0, 1)]) {
        Err(FontHeightError::MismatchedAxes(e)) => assert_eq!(e.extras, vec![0x7767_6874]),
        other => panic!("unexpected: {:?}", other.map(|_| ())),
    }
    assert!(InstanceExtremes::new(&location, &vec![0x7767_6874], vec![drawn(0, 0, 1)]).is_ok());
}

#[test]
fn later_bounds_of_a_glyph_replace_earlier_ones() {
    let cache =
        InstanceExtremes::new(&Location::new(), &Vec::new(), vec![drawn(1, 0, 1), drawn(1, -2, 3)])
            .unwrap();
    assert_eq!(cache.get(1), Some(units(-2, 3)));
}

#[test]
fn bytes_that_are_no_font_are_refused() {
    assert!(matches!(Reporter::new(b"not a font"), Err(FontHeightError::Skrifa(_))));
    assert!(matches!(Reporter::new(&[]), Err(FontHeightError::Skrifa(_))));
}

#[test]
fn bounds_between_whole_units_are_kept() {
    let glyphs = vec![DrawnGlyph {
        glyph_id: 1,
        outcome: Ok(VerticalExtremes::new(-UNIT / 2, 10 * UNIT + 1)),
    }];
    let cache = InstanceExtremes::new(&Location::new(), &Vec::new(), glyphs).unwrap();
    assert_eq!(
        cache.word_extremes(&vec![glyph(1, 3)]),
        Some(VerticalExtremes::new(3 * UNIT - UNIT / 2, 13 * UNIT + 1))
    );
    assert_eq!(
        cache.word_extremes(&vec![glyph(1, i32::MIN), glyph(1, i32::MAX)]),
        Some(VerticalExtremes::new(
            i32::MIN as i64 * UNIT - UNIT / 2,
            i32::MAX as i64 * UNIT + 10 * UNIT + 1
        ))
    );
}

#[test]
fn report_fails_exactly_where_a_measurable_word_has_a_glyph_without_bounds() {
    let reporter = toy_reporter();
    let word_list = WordList::define("toy".to_string(), Vec::new());
    let known = vec![
        shaped("Ay", vec![glyph(1, 0), glyph(2, 0)]),
        shaped("?", vec![glyph(0, 0), glyph(77, 0)]),
        shaped("", Vec::new()),
    ];
    let report = report_of(&reporter, &word_list, &known, 1).unwrap();
    assert_eq!(report.exemplars.lowest(), &[entry("Ay", -20, 700)]);
    assert_eq!(report.exemplars.highest(), &[entry("Ay", -20, 700)]);
    assert!(report_of(&reporter, &word_list, &Vec::new(), 1).unwrap().exemplars.is_empty());
    let unknown = vec![shaped("Ay", vec![glyph(1, 0), glyph(2, 0)]), shaped("q", vec![glyph(77, 0)])];
    assert!(matches!(
        report_of(&reporter, &word_list, &unknown, 1),
        Err(FontHeightError::UnknownGlyph)
    ));
}

#[test]
fn words_that_cannot_be_measured_give_an_empty_report() {
    let reporter = toy_reporter();
    let word_list = WordList::define("toy".to_string(), Vec::new());
    let words = vec![
        shaped("", Vec::new()),
        shaped("?", vec![glyph(0, 0)]),
        shaped("A?", vec![glyph(1, 0), glyph(0, 0)]),
        shaped("?q", vec![glyph(0, 0), glyph(77, 0)]),
    ];
    let report = report_of(&reporter, &word_list, &words, 3).unwrap();
    assert!(report.exemplars.is_empty());
    assert!(report.exemplars.highest().is_empty());
    let sharded = reporter.par_check(&word_list, &words, None, 3, 2);
    assert!(sharded.exemplars.is_empty());
}
