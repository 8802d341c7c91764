use fontheight::exemplars::{collect_min_max_extremes, CollectToExemplars, ExemplarCollector};
use fontheight::locations::Location;
use fontheight::word_lists::WordList;
use fontheight::extremes::{VerticalExtremes, WordExtremes};

fn entry(word: &str, lowest: i64, highest: i64) -> WordExtremes {
    WordExtremes::new(word.to_string(), VerticalExtremes::new(lowest, highest))
}

#[test]
fn one_exemplar_can_be_both_lowest_and_highest() {
    let items = vec![entry("Ay", -20, 700), entry("xyz", -5, 450)];
    let exemplars = collect_min_max_extremes(items, 1);
    assert_eq!(exemplars.lowest(), &[entry("Ay", -20, 700)]);
    assert_eq!(exemplars.highest(), &[entry("Ay", -20, 700)]);
    assert_eq!(exemplars.len(), 1);
    assert!(!exemplars.is_empty());
}

#[test]
fn tie_at_capacity_keeps_one_of_the_equal_words() {
    let mut collector = ExemplarCollector::new(2);
    collector.push(entry("first", 10, 100));
    collector.push(entry("second", 10, 200));
    collector.push(entry("third", 5, 300));
    let exemplars = collector.build();
    assert_eq!(exemplars.lowest(), &[entry("third", 5, 300), entry("first", 10, 100)]);
    assert_eq!(exemplars.highest(), &[entry("third", 5, 300), entry("second", 10, 200)]);
}

#[test]
fn equal_word_at_capacity_is_discarded() {
    let mut collector = ExemplarCollector::new(1);
    collector.push(entry("kept", 3, 9));
    collector.push(entry("late", 3, 9));
    let exemplars = collector.build();
    assert_eq!(exemplars.lowest(), &[entry("kept", 3, 9)]);
    assert_eq!(exemplars.highest(), &[entry("kept", 3, 9)]);
}

#[test]
fn fewer_words_than_capacity_are_all_kept_in_order() {
    let items = vec![entry("b", 0, 10), entry("a", -3, 5), entry("c", -1, 20)];
    let exemplars = collect_min_max_extremes(items, 5);
    assert_eq!(exemplars.lowest(), &[entry("a", -3, 5), entry("c", -1, 20), entry("b", 0, 10)]);
    assert_eq!(exemplars.highest(), &[entry("c", -1, 20), entry("b", 0, 10), entry("a", -3, 5)]);
    assert_eq!(exemplars.len(), 3);
}

#[test]
fn empty_stream_gives_no_exemplars() {
    let exemplars = collect_min_max_extremes(Vec::new(), 3);
    assert!(exemplars.is_empty());
    assert_eq!(exemplars.len(), 0);
    assert!(exemplars.highest().is_empty());
}

#[test]
fn merging_two_parts_equals_collecting_the_whole() {
    let part_one = vec![entry("a", -7, 40), entry("b", -2, 90), entry("c", -9, 10)];
    let part_two = vec![entry("d", -8, 95), entry("e", -1, 30), entry("f", -10, 85)];
    let mut whole = part_one.clone();
    whole.extend(part_two.clone());

    let mut left = ExemplarCollector::new(2);
    for item in part_one {
        left.push(item);
    }
    let mut right = ExemplarCollector::new(2);
    for item in part_two {
        right.push(item);
    }
    left.merge_with(right);
    let merged = left.build();
    let direct = collect_min_max_extremes(whole, 2);
    assert_eq!(merged.lowest(), direct.lowest());
    assert_eq!(merged.highest(), direct.highest());
    assert_eq!(merged.lowest(), &[entry("f", -10, 85), entry("c", -9, 10)]);
    assert_eq!(merged.highest(), &[entry("d", -8, 95), entry("b", -2, 90)]);
}

#[test]
fn merge_offers_a_word_kept_on_both_sides_once() {
    let mut left = ExemplarCollector::new(3);
    let mut right = ExemplarCollector::new(3);
    right.push(entry("both", -4, 44));
    left.merge_with(right);
    let merged = left.build();
    assert_eq!(merged.lowest(), &[entry("both", -4, 44)]);
    assert_eq!(merged.highest(), &[entry("both", -4, 44)]);
}

#[test]
fn vector_of_words_collects_into_exemplars() {
    let items = vec![entry("a", -1, 9), entry("b", -2, 8), entry("c", -3, 7)];
    let exemplars = items.collect_min_max_extremes(2);
    assert_eq!(exemplars.lowest(), &[entry("c", -3, 7), entry("b", -2, 8)]);
    assert_eq!(exemplars.highest(), &[entry("a", -1, 9), entry("b", -2, 8)]);
    let location = Location::new();
    let word_list = WordList::define("abc".to_string(), Vec::new());
    let report = exemplars.to_report(&location, &word_list);
    assert_eq!(report.word_list.name(), "abc");
    assert_eq!(report.exemplars.len(), 2);
}

#[test]
fn highest_ties_keep_the_earlier_word() {
    let items = vec![entry("one", 0, 50), entry("two", 1, 50), entry("three", 2, 50)];
    let exemplars = collect_min_max_extremes(items, 2);
    assert_eq!(exemplars.highest(), &[entry("one", 0, 50), entry("two", 1, 50)]);
}

#[test]
fn merge_drops_an_entry_that_the_other_collector_kept_twice() {
    let mut left = ExemplarCollector::new(2);
    let mut right = ExemplarCollector::new(2);
    right.push(entry("same", -4, 44));
    right.push(entry("same", -4, 44));
    left.merge_with(right);
    let merged = left.build();
    assert_eq!(merged.lowest(), &[entry("same", -4, 44)]);
    let direct =
        collect_min_max_extremes(vec![entry("same", -4, 44), entry("same", -4, 44)], 2);
    assert_eq!(direct.lowest().len(), 2);
}

#[test]
fn merge_counts_a_record_that_both_collectors_hold_once() {
    let mut a = ExemplarCollector::new(2);
    a.push(entry("a", 1, 1));
    let mut b = ExemplarCollector::new(2);
    b.push(entry("a", 1, 1));
    a.merge_with(b);
    let e = a.build();
    assert_eq!(e.lowest(), &[entry("a", 1, 1)]);
    assert_eq!(e.highest(), &[entry("a", 1, 1)]);
}

#[test]
fn merge_takes_what_only_the_other_collector_holds() {
    let mut a = ExemplarCollector::new(2);
    a.push(entry("a", 1, 1));
    a.push(entry("b", 0, 5));
    let mut b = ExemplarCollector::new(2);
    b.push(entry("a", 1, 1));
    b.push(entry("c", -3, 2));
    b.push(entry("a", 1, 2));
    a.merge_with(b);
    let e = a.build();
    assert_eq!(e.lowest(), &[entry("c", -3, 2), entry("b", 0, 5)]);
    assert_eq!(e.highest(), &[entry("b", 0, 5), entry("c", -3, 2)]);
}

#[test]
fn merge_looks_at_what_is_held_on_either_side() {
    let mut a = ExemplarCollector::new(1);
    a.push(entry("low", -9, 0));
    a.push(entry("high", 0, 9));
    let mut b = ExemplarCollector::new(1);
    b.push(entry("high", 0, 9));
    b.push(entry("low", -9, 0));
    a.merge_with(b);
    let e = a.build();
    assert_eq!(e.lowest(), &[entry("low", -9, 0)]);
    assert_eq!(e.highest(), &[entry("high", 0, 9)]);
}
