use fontheight::extremes::{VerticalExtremes, WordExtremes};

#[test]
fn merge_takes_the_outer_bounds() {
    let a = VerticalExtremes::new(-10, 50);
    let b = VerticalExtremes::new(-3, 80);
    let merged = a.merge(b);
    assert_eq!(merged.lowest(), -10);
    assert_eq!(merged.highest(), 80);
    assert_eq!(b.merge(a), merged);
}

#[test]
fn lower_and_higher_pick_by_one_bound() {
    let a = WordExtremes::new("a".to_string(), VerticalExtremes::new(-5, 10));
    let b = WordExtremes::new("b".to_string(), VerticalExtremes::new(-2, 30));
    assert_eq!(a.clone().lower(b.clone()), a);
    assert_eq!(a.clone().higher(b.clone()), b);
    assert_eq!(a.lowest(), -5);
    assert_eq!(b.highest(), 30);
    let tie = WordExtremes::new("t".to_string(), VerticalExtremes::new(-5, 30));
    assert_eq!(a.clone().lower(tie.clone()), a);
    assert_eq!(tie.clone().higher(b.clone()), tie);
    assert_eq!(a.duplicate(), a);
}
