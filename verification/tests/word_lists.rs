use fontheight::word_lists::{
    newline_delimited_words, words_from_bytes, WordList, WordListError, WordListMetadata,
};

#[test]
fn words_are_split_at_any_white_space() {
    let words = newline_delimited_words("alpha\nbeta  gamma\r\n\n\u{3000}delta\u{85}\tepsilon ");
    assert_eq!(words, vec!["alpha", "beta", "gamma", "delta", "epsilon"]);
    assert!(newline_delimited_words(" \n\t").is_empty());
    assert!(newline_delimited_words("").is_empty());
}

#[test]
fn defined_list_hands_out_its_words() {
    let list = WordList::define("test".to_string(), vec!["Ay".to_string(), "xyz".to_string()]);
    assert_eq!(list.name(), "test");
    assert_eq!(list.script(), None);
    assert_eq!(list.language(), None);
    assert_eq!(list.len(), 2);
    assert!(!list.is_empty());
    assert_eq!(list.get(0), Some("Ay"));
    assert_eq!(list.get(1), Some("xyz"));
    assert_eq!(list.get(2), None);
    let mut walk = list.iter();
    assert_eq!(walk.len(), 2);
    assert_eq!(walk.next(), Some("Ay"));
    assert_eq!(walk.next_back(), Some("xyz"));
    assert_eq!(walk.next(), None);
    assert_eq!(walk.next_back(), None);
    assert_eq!(walk.len(), 0);
}

#[test]
fn loaded_list_has_a_name_and_no_metadata() {
    let list = WordList::load("latin".to_string(), "one\ntwo\nthree\n");
    assert_eq!(list.name(), "latin");
    assert_eq!(list.len(), 3);
    assert_eq!(list.get(2), Some("three"));
    assert_eq!(list.script(), None);
}

#[test]
fn metadata_is_kept() {
    let metadata =
        WordListMetadata::new("greek".to_string(), Some("Grek".to_string()), Some("el".to_string()));
    let list = WordList::new(metadata, Vec::new());
    assert_eq!(list.name(), "greek");
    assert_eq!(list.script(), Some("Grek"));
    assert_eq!(list.language(), Some("el"));
    assert!(list.is_empty());
    assert_eq!(list.iter().next(), None);
}

#[test]
fn stretch_splits_into_two_parts() {
    let list = WordList::define(
        "n".to_string(),
        vec!["a".to_string(), "b".to_string(), "c".to_string()],
    );
    let whole = list.par_iter();
    assert_eq!(whole.len(), 3);
    let (left, right) = whole.split_at(1);
    assert_eq!(left.len(), 1);
    assert_eq!(right.len(), 2);
    let mut left = left.into_iter();
    let mut right = right.into_iter();
    assert_eq!(left.next(), Some("a"));
    assert_eq!(left.next(), None);
    assert_eq!(right.next(), Some("b"));
    assert_eq!(right.next(), Some("c"));
    assert_eq!(right.next(), None);
}

/// A Brotli stream that stores `text` uncompressed.
fn stored(text: &str) -> Vec<u8> {
    let bytes = text.as_bytes();
    assert!(!bytes.is_empty() && bytes.len() <= 65536);
    let len = (bytes.len() - 1) as u32;
    let header: u32 = (len << 4) | (1 << 20);
    let mut stream = vec![header as u8, (header >> 8) as u8, (header >> 16) as u8];
    stream.extend_from_slice(bytes);
    stream.push(0x03);
    stream
}

#[test]
fn word_lists_decompress() {
    let table = vec![
        ("latin", stored("hello\nworld\n")),
        ("greek", stored("\u{3b1}\u{3b2}\n\u{3b3}\n")),
    ];
    table.iter().for_each(|(name, compressed)| {
        let word_list =
            WordList::decompress(WordListMetadata::new_from_name(name.to_string()), compressed)
                .unwrap();
        let _ = word_list.iter().next();
    });
}

#[test]
fn decompressed_list_holds_the_stored_words() {
    let list = WordList::decompress(
        WordListMetadata::new("latin".to_string(), Some("Latn".to_string()), None),
        &stored("hello\nworld\n"),
    )
    .unwrap();
    assert_eq!(list.len(), 2);
    assert_eq!(list.get(0), Some("hello"));
    assert_eq!(list.get(1), Some("world"));
    assert_eq!(list.script(), Some("Latn"));
}

#[test]
fn broken_stream_is_corrupt() {
    let mut stream = stored("hello\nworld\n");
    stream.truncate(6);
    let r = WordList::decompress(WordListMetadata::new_from_name("x".to_string()), &stream);
    assert_eq!(r.err(), Some(WordListError::Corrupt));
}

#[test]
fn bytes_that_are_no_text_are_refused() {
    assert_eq!(words_from_bytes(vec![0x61, 0xff, 0x62]), Err(WordListError::NotText));
    assert_eq!(words_from_bytes(vec![0x61, 0x20, 0x62]), Ok(vec!["a".to_string(), "b".to_string()]));
}

#[test]
fn word_is_copied_out_of_the_list() {
    let list = WordList::define("n".to_string(), vec!["a".to_string(), "b".to_string()]);
    assert_eq!(list.word(1), Some("b".to_string()));
    assert_eq!(list.word(2), None);
}
