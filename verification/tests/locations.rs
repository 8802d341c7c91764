use std::cmp::Ordering;

use fontheight::design_space::{interesting_locations, Axis};
use fontheight::locations::Location;
use fontheight::tags::{parse_tag, tag_bytes, InvalidTagError};

const WGHT: u32 = 0x7767_6874;
const WDTH: u32 = 0x7764_7468;
const ITAL: u32 = 0x6974_616c;

fn fixed(units: i32) -> i32 {
    units * 65536
}

#[test]
fn tags_are_checked_and_padded() {
    assert_eq!(parse_tag(b"wght"), Ok(WGHT));
    assert_eq!(parse_tag(b"ab"), Ok(0x6162_2020));
    assert_eq!(parse_tag(b""), Err(InvalidTagError::InvalidLength(0)));
    assert_eq!(parse_tag(b"abcde"), Err(InvalidTagError::InvalidLength(5)));
    assert_eq!(parse_tag(b" abc"), Err(InvalidTagError::InvalidByte { pos: 0, byte: 0x20 }));
    assert_eq!(parse_tag(b"a\x7fc"), Err(InvalidTagError::InvalidByte { pos: 1, byte: 0x7f }));
    assert_eq!(parse_tag(b"a bc"), Err(InvalidTagError::InvalidByte { pos: 2, byte: b'b' }));
    assert_eq!(tag_bytes(WGHT), *b"wght");
}

#[test]
fn axes_keep_the_order_in_which_they_were_set() {
    let mut loc = Location::new();
    assert_eq!(loc.axis(b"wght", fixed(400)), Ok(()));
    assert_eq!(loc.axis(b"ital", fixed(1)), Ok(()));
    assert_eq!(loc.axis(b"wdth", fixed(1000)), Ok(()));
    assert_eq!(loc.axis(b"wght", fixed(700)), Ok(()));
    assert_eq!(loc.len(), 3);
    assert_eq!(
        loc.to_harfrust(),
        vec![(WGHT, fixed(700)), (ITAL, fixed(1)), (WDTH, fixed(1000))]
    );
    assert_eq!(loc.get_index(1), Some((ITAL, fixed(1))));
    assert_eq!(loc.get_index(3), None);
    loc.sort_axes();
    assert_eq!(
        loc.to_harfrust(),
        vec![(ITAL, fixed(1)), (WDTH, fixed(1000)), (WGHT, fixed(700))]
    );
    let copy = loc.clone();
    assert_eq!(copy.to_harfrust(), loc.to_harfrust());
}

#[test]
fn bad_tag_leaves_the_location_alone() {
    let mut loc = Location::new();
    assert_eq!(loc.axis(b"toolong", 1), Err(InvalidTagError::InvalidLength(7)));
    assert_eq!(loc.len(), 0);
}

#[test]
fn location_is_validated_against_the_font_axes() {
    let loc = Location::from_skrifa(&vec![(WGHT, 1), (ITAL, 2), (WDTH, 3)]);
    assert!(loc.validate_for(&vec![WDTH, WGHT, ITAL]).is_ok());
    let err = loc.validate_for(&vec![WGHT]).unwrap_err();
    assert_eq!(err.extras, vec![ITAL, WDTH]);
    assert!(Location::new().validate_for(&Vec::new()).is_ok());
}

#[test]
fn font_without_axes_has_one_empty_location() {
    let locations = interesting_locations(&Vec::new(), &Vec::new());
    assert_eq!(locations.len(), 1);
    assert_eq!(locations[0].len(), 0);
}

#[test]
fn locations_are_the_product_of_the_coordinates_seen() {
    let axes = vec![
        Axis { tag: WGHT, min_value: fixed(100), default_value: fixed(400), max_value: fixed(900) },
        Axis { tag: ITAL, min_value: 0, default_value: 0, max_value: fixed(1) },
    ];
    let instances = vec![vec![fixed(700), 0], vec![fixed(400), fixed(1)]];
    let locations = interesting_locations(&axes, &instances);
    let got: Vec<Vec<(u32, i32)>> = locations.iter().map(|l| l.to_harfrust()).collect();
    let mut expected = Vec::new();
    for wght in [100, 400, 700, 900] {
        for ital in [0, 1] {
            expected.push(vec![(ITAL, fixed(ital)), (WGHT, fixed(wght))]);
        }
    }
    assert_eq!(got, expected);
    let again: Vec<Vec<(u32, i32)>> =
        interesting_locations(&axes, &instances).iter().map(|l| l.to_harfrust()).collect();
    assert_eq!(again, got);
}

#[test]
fn locations_with_the_same_axes_are_ordered_by_coordinates() {
    let a = Location::from_skrifa(&vec![(ITAL, 0), (WGHT, fixed(400))]);
    let b = Location::from_skrifa(&vec![(ITAL, 0), (WGHT, fixed(700))]);
    let c = Location::from_skrifa(&vec![(WGHT, fixed(400)), (ITAL, 0)]);
    let d = Location::from_skrifa(&vec![(ITAL, 0)]);
    let e = Location::from_skrifa(&vec![(ITAL, fixed(1)), (WDTH, fixed(100))]);
    assert_eq!(a.partial_cmp(&b), Some(Ordering::Less));
    assert_eq!(b.partial_cmp(&a), Some(Ordering::Greater));
    assert_eq!(a.partial_cmp(&a.clone()), Some(Ordering::Equal));
    assert_eq!(a.partial_cmp(&c), None);
    assert_eq!(a.partial_cmp(&d), None);
    assert_eq!(a.partial_cmp(&e), None);
    assert_eq!(e.partial_cmp(&a), None);
    let f = Location::from_skrifa(&vec![(ITAL, fixed(1)), (WGHT, fixed(100))]);
    assert_eq!(a.partial_cmp(&f), Some(Ordering::Less));
    assert_eq!(f.partial_cmp(&a), Some(Ordering::Greater));
    assert_eq!(Location::new().partial_cmp(&Location::new()), Some(Ordering::Equal));
}
