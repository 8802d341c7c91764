use fontheight::errors::ShapingPlanError;
use fontheight::shaping::{
    direction_from_script, iso15924_to_opentype, shaping_properties, TextDirection, ARABIC, HAN, LATIN, OLD_ITALIC,
    UNKNOWN,
};
use fontheight::tags::InvalidTagError;
use fontheight::word_lists::WordList;

#[test]
fn scripts_have_their_direction() {
    assert_eq!(direction_from_script(ARABIC), Some(TextDirection::RightToLeft));
    assert_eq!(direction_from_script(0x4865_6272), Some(TextDirection::RightToLeft));
    assert_eq!(direction_from_script(0x4f75_6772), Some(TextDirection::RightToLeft));
    assert_eq!(direction_from_script(OLD_ITALIC), None);
    assert_eq!(direction_from_script(0x5466_6e67), None);
    assert_eq!(direction_from_script(LATIN), Some(TextDirection::LeftToRight));
    assert_eq!(direction_from_script(0), Some(TextDirection::LeftToRight));
}

#[test]
fn properties_come_from_script_and_language() {
    let latin = shaping_properties("Latn", Some("en")).unwrap();
    assert_eq!(latin.script, LATIN);
    assert_eq!(latin.direction, TextDirection::LeftToRight);
    assert_eq!(latin.language.as_deref(), Some("en"));

    let arabic = shaping_properties("arab", None).unwrap();
    assert_eq!(arabic.script, ARABIC);
    assert_eq!(arabic.direction, TextDirection::RightToLeft);
    assert_eq!(arabic.language, None);

    assert_eq!(shaping_properties("Hans", None).unwrap().script, HAN);
    assert_eq!(shaping_properties("ARAN", None).unwrap().script, ARABIC);
    assert_eq!(shaping_properties("ab1d", None).unwrap().script, UNKNOWN);
    assert_eq!(shaping_properties("La", None).unwrap().script, UNKNOWN);
    let italic = shaping_properties("Ital", None).unwrap();
    assert_eq!(italic.script, OLD_ITALIC);
    assert_eq!(italic.direction, TextDirection::LeftToRight);
}

#[test]
fn bad_script_and_empty_language_are_refused() {
    match shaping_properties("Latin", Some("en")) {
        Err(ShapingPlanError::UnknownScriptTag(e)) => {
            assert_eq!(e, InvalidTagError::InvalidLength(5))
        },
        other => panic!("unexpected: {:?}", other),
    }
    match shaping_properties("", Some("")) {
        Err(ShapingPlanError::UnknownScriptTag(e)) => {
            assert_eq!(e, InvalidTagError::InvalidLength(0))
        },
        other => panic!("unexpected: {:?}", other),
    }
    match shaping_properties("Latn", Some("")) {
        Err(ShapingPlanError::UnknownLanguage(e)) => assert_eq!(e.language, ""),
        other => panic!("unexpected: {:?}", other),
    }
}

#[test]
fn script_codes_become_opentype_tags() {
    let tag = |t: &[u8; 4]| u32::from_be_bytes(*t);
    assert_eq!(iso15924_to_opentype("Hira"), Ok(tag(b"kana")));
    assert_eq!(iso15924_to_opentype("Hrkt"), Ok(tag(b"kana")));
    assert_eq!(iso15924_to_opentype("Laoo"), Ok(tag(b"lao ")));
    assert_eq!(iso15924_to_opentype("Yiii"), Ok(tag(b"yi  ")));
    assert_eq!(iso15924_to_opentype("Deva"), Ok(tag(b"dev2")));
    assert_eq!(iso15924_to_opentype("Mymr"), Ok(tag(b"mym2")));
    assert_eq!(iso15924_to_opentype("Latn"), Ok(tag(b"latn")));
    assert_eq!(iso15924_to_opentype("ARAB"), Ok(tag(b"arab")));
    assert_eq!(iso15924_to_opentype("hira"), Ok(tag(b"hira")));
    assert_eq!(iso15924_to_opentype("Gr"), Ok(tag(b"gr  ")));
    assert_eq!(iso15924_to_opentype(""), Err(InvalidTagError::InvalidLength(0)));
    assert_eq!(iso15924_to_opentype("Latin"), Err(InvalidTagError::InvalidLength(5)));
    assert_eq!(
        iso15924_to_opentype("L\u{e9}n"),
        Err(InvalidTagError::InvalidByte { pos: 1, byte: 0xc3 })
    );
}

#[test]
fn word_list_properties_are_guessed_from_its_words() {
    let list = |words: &[&str]| {
        WordList::define("l".to_string(), words.iter().map(|w| w.to_string()).collect())
    };
    assert_eq!(list(&["hello"]).properties(), Some((TextDirection::LeftToRight, LATIN)));
    assert_eq!(
        list(&["123", "...", "\u{645}\u{631}\u{62d}\u{628}\u{627}", "hello"]).properties(),
        Some((TextDirection::RightToLeft, ARABIC))
    );
    assert_eq!(list(&["123", "..."]).properties(), None);
    assert_eq!(list(&[]).properties(), None);
    let mut late = vec!["1"; 20];
    late.push("hello");
    assert_eq!(list(&late).properties(), None);
    late.remove(0);
    assert_eq!(list(&late).properties(), Some((TextDirection::LeftToRight, LATIN)));
}
