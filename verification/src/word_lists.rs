//! Word lists: the words to shape, with what is known of their script and
//! language.

use vstd::prelude::*;
use vstd::utf8::{decode_utf8, valid_utf8};

verus! {

/// What is known about a word list besides its words.
#[derive(Debug, Clone)]
pub struct WordListMetadata {
    pub name: String,
    pub script: Option<String>,
    pub language: Option<String>,
}

impl WordListMetadata {
    /// Metadata with a name and, where known, a script and a language.
    pub fn new(name: String, script: Option<String>, language: Option<String>) -> (r: Self)
        ensures
            r.name == name,
            r.script == script,
            r.language == language,
    {
        WordListMetadata { name, script, language }
    }

    /// Metadata that holds a name and nothing else.
    pub fn new_from_name(name: String) -> (r: Self)
        ensures
            r.name == name,
            r.script.is_none(),
            r.language.is_none(),
    {
        WordListMetadata { name, script: None, language: None }
    }
}

/// Whether `c` has the Unicode property `White_Space`.
pub open spec fn is_white_space(c: char) -> bool {
    let n = c as u32;
    ||| 0x09 <= n <= 0x0D
    ||| n == 0x20
    ||| n == 0x85
    ||| n == 0xA0
    ||| n == 0x1680
    ||| 0x2000 <= n <= 0x200A
    ||| n == 0x2028
    ||| n == 0x2029
    ||| n == 0x202F
    ||| n == 0x205F
    ||| n == 0x3000
}

/// The words of a text: its longest runs of characters that are not white
/// space, in order.
pub open spec fn words_of(text: Seq<char>) -> Seq<Seq<char>>
    decreases text.len(),
{
    if text.len() == 0 {
        Seq::empty()
    } else {
        let before = words_of(text.drop_last());
        let c = text.last();
        if is_white_space(c) {
            before
        } else if text.len() >= 2 && !is_white_space(text[text.len() - 2]) && before.len() > 0 {
            before.drop_last().push(before.last().push(c))
        } else {
            before.push(seq![c])
        }
    }
}

/// The characters of each of `words`.
pub open spec fn views_of(words: Seq<String>) -> Seq<Seq<char>> {
    Seq::new(words.len(), |i: int| words[i]@)
}

/// Splits a text at white space, with `str::split_whitespace`.
///
/// Trusted: the parts are the longest runs of characters without the Unicode
/// property `White_Space`, in the order of the text, and none is empty.
#[verifier::external_body]
fn split_words(input: &str) -> (r: Vec<String>)
    ensures
        views_of(r@) == words_of(input@),
{
    input.split_whitespace().map(String::from).collect()
}

/// The words of a text that holds one word per line, or several on a line
/// with white space between them.
pub fn newline_delimited_words(input: &str) -> (r: Vec<String>)
    ensures
        views_of(r@) == words_of(input@),
{
    split_words(input)
}

/// Why a compressed word list could not be unpacked.
#[derive(Debug, Clone, Copy, PartialEq, Eq, Structural)]
pub enum WordListError {
    /// The bytes are not a complete Brotli stream.
    Corrupt,
    /// The unpacked bytes are not UTF-8 text.
    NotText,
}

/// What a Brotli stream unpacks to; `None` where the bytes are no complete
/// stream.
pub uninterp spec fn brotli_decoded(compressed: Seq<u8>) -> Option<Seq<u8>>;

/// The bytes that an optional vector holds.
pub open spec fn bytes_of(v: Option<Vec<u8>>) -> Option<Seq<u8>> {
    match v {
        Some(bytes) => Some(bytes@),
        None => None,
    }
}

/// Unpacks a Brotli stream, with `brotli_decompressor::BrotliDecompress`.
///
/// Trusted: what comes out depends on the bytes that go in and on nothing
/// else.
#[verifier::external_body]
fn brotli_decompress(compressed: &[u8]) -> (r: Option<Vec<u8>>)
    ensures
        bytes_of(r) == brotli_decoded(compressed@),
{
    let mut input = compressed;
    let mut output = Vec::new();
    match brotli_decompressor::BrotliDecompress(&mut input, &mut output) {
        Ok(()) => Some(output),
        Err(_) => None,
    }
}

/// Reads bytes as UTF-8 text, with `String::from_utf8`.
///
/// Trusted: the text is there exactly where the bytes are valid UTF-8, and
/// then holds the characters that they encode.
#[verifier::external_body]
fn text_from_utf8(bytes: Vec<u8>) -> (r: Option<String>)
    ensures
        r.is_some() == valid_utf8(bytes@),
        r.is_some() ==> r.unwrap()@ == decode_utf8(bytes@),
{
    String::from_utf8(bytes).ok()
}

/// The words of unpacked bytes: they must be UTF-8 text with one word per
/// line.
pub fn words_from_bytes(bytes: Vec<u8>) -> (r: Result<Vec<String>, WordListError>)
    ensures
        r.is_ok() == valid_utf8(bytes@),
        r.is_ok() ==> views_of(r.unwrap()@) == words_of(decode_utf8(bytes@)),
        r.is_err() ==> r.unwrap_err() == WordListError::NotText,
{
    match text_from_utf8(bytes) {
        Some(text) => Ok(newline_delimited_words(text.as_str())),
        None => Err(WordListError::NotText),
    }
}

/// A list of words, with a name and optional metadata.
#[derive(Debug)]
pub struct WordList {
    words: Vec<String>,
    metadata: WordListMetadata,
}

impl WordList {
    /// The words, in order.
    pub closed spec fn words(&self) -> Seq<String> {
        self.words@
    }

    /// The metadata.
    pub closed spec fn metadata(&self) -> WordListMetadata {
        self.metadata
    }

    /// A word list with the words of `content`, which holds one word per
    /// line, and no metadata but the name.
    pub fn load(name: String, content: &str) -> (r: Self)
        ensures
            views_of(r.words()) == words_of(content@),
            r.metadata().name == name,
            r.metadata().script.is_none(),
            r.metadata().language.is_none(),
    {
        WordList {
            words: newline_delimited_words(content),
            metadata: WordListMetadata::new_from_name(name),
        }
    }

    /// Unpacks a word list that was stored as a Brotli stream of UTF-8 text
    /// with one word per line.
    pub fn decompress(metadata: WordListMetadata, compressed: &[u8]) -> (r: Result<
        Self,
        WordListError,
    >)
        ensures
            r.is_ok() == (brotli_decoded(compressed@).is_some() && valid_utf8(
                brotli_decoded(compressed@).unwrap(),
            )),
            r.is_ok() ==> r.unwrap().metadata() == metadata && views_of(r.unwrap().words())
                == words_of(decode_utf8(brotli_decoded(compressed@).unwrap())),
            r.is_err() ==> r.unwrap_err() == if brotli_decoded(compressed@).is_none() {
                WordListError::Corrupt
            } else {
                WordListError::NotText
            },
    {
        match brotli_decompress(compressed) {
            None => Err(WordListError::Corrupt),
            Some(bytes) => match words_from_bytes(bytes) {
                Ok(words) => Ok(WordList { words, metadata }),
                Err(e) => Err(e),
            },
        }
    }

    /// A word list of the given words, with no metadata but the name.
    pub fn define(name: String, words: Vec<String>) -> (r: Self)
        ensures
            r.words() == words@,
            r.metadata().name == name,
            r.metadata().script.is_none(),
            r.metadata().language.is_none(),
    {
        WordList { words, metadata: WordListMetadata::new_from_name(name) }
    }

    /// A word list of the given words and metadata.
    pub fn new(metadata: WordListMetadata, words: Vec<String>) -> (r: Self)
        ensures
            r.words() == words@,
            r.metadata() == metadata,
    {
        WordList { words, metadata }
    }

    /// The name of the word list.
    pub fn name(&self) -> (r: &str)
        ensures
            r@ == self.metadata().name@,
    {
        self.metadata.name.as_str()
    }

    /// The script of the words, if known: by convention a four-letter
    /// ISO 15924 code.
    pub fn script(&self) -> (r: Option<&str>)
        ensures
            r.is_some() == self.metadata().script.is_some(),
            r.is_some() ==> r.unwrap()@ == self.metadata().script.unwrap()@,
    {
        match &self.metadata.script {
            Some(script) => Some(script.as_str()),
            None => None,
        }
    }

    /// The language of the words, if known: by convention a two-letter
    /// ISO 639-1 code.
    pub fn language(&self) -> (r: Option<&str>)
        ensures
            r.is_some() == self.metadata().language.is_some(),
            r.is_some() ==> r.unwrap()@ == self.metadata().language.unwrap()@,
    {
        match &self.metadata.language {
            Some(language) => Some(language.as_str()),
            None => None,
        }
    }

    /// How many words the list holds.
    pub fn len(&self) -> (r: usize)
        ensures
            r == self.words().len(),
    {
        self.words.len()
    }

    /// Whether the list holds no word.
    pub fn is_empty(&self) -> (r: bool)
        ensures
            r == (self.words().len() == 0),
    {
        self.words.len() == 0
    }

    /// The word at `index`, if there is one.
    pub fn get(&self, index: usize) -> (r: Option<&str>)
        ensures
            r.is_some() == (index < self.words().len()),
            r.is_some() ==> r.unwrap()@ == self.words()[index as int]@,
    {
        if index < self.words.len() {
            Some(self.words[index].as_str())
        } else {
            None
        }
    }

    /// A copy of the word at `index`, if there is one.
    pub fn word(&self, index: usize) -> (r: Option<String>)
        ensures
            r == if index < self.words().len() {
                Some(self.words()[index as int])
            } else {
                None
            },
    {
        if index < self.words.len() {
            Some(self.words[index].clone())
        } else {
            None
        }
    }

    /// A walk through the words, from the first to the last.
    pub fn iter(&self) -> (r: WordListIter<'_>)
        ensures
            r.wf(),
            r.remaining() == self.words(),
    {
        WordListIter { words: &self.words, front: 0, back: self.words.len() }
    }

    /// The whole list as one piece of work that can be split.
    pub fn par_iter(&self) -> (r: ParWordListIter<'_>)
        ensures
            r.wf(),
            r.remaining() == self.words(),
    {
        ParWordListIter { words: &self.words, start: 0, end: self.words.len() }
    }
}

/// A walk through a word list, which can be advanced from both ends.
#[derive(Debug)]
pub struct WordListIter<'a> {
    words: &'a Vec<String>,
    front: usize,
    back: usize,
}

impl<'a> WordListIter<'a> {
    /// Whether the walk lies within its list.
    pub closed spec fn wf(&self) -> bool {
        self.front <= self.back <= self.words@.len()
    }

    /// The words that have not been handed out yet.
    pub closed spec fn remaining(&self) -> Seq<String> {
        self.words@.subrange(self.front as int, self.back as int)
    }

    /// Hands out the first remaining word, or `None` at the end.
    pub fn next(&mut self) -> (r: Option<&'a str>)
        requires
            old(self).wf(),
        ensures
            final(self).wf(),
            r.is_some() == (old(self).remaining().len() > 0),
            r.is_some() ==> r.unwrap()@ == old(self).remaining().first()@ && final(self).remaining() == old(self).remaining().drop_first(),
            r.is_none() ==> final(self).remaining() == old(self).remaining(),
    {
        if self.front < self.back {
            let word = self.words[self.front].as_str();
            assert(self.remaining().drop_first() =~= self.words@.subrange(
                self.front + 1,
                self.back as int,
            ));
            self.front = self.front + 1;
            Some(word)
        } else {
            None
        }
    }

    /// Hands out the last remaining word, or `None` where none is left.
    pub fn next_back(&mut self) -> (r: Option<&'a str>)
        requires
            old(self).wf(),
        ensures
            final(self).wf(),
            r.is_some() == (old(self).remaining().len() > 0),
            r.is_some() ==> r.unwrap()@ == old(self).remaining().last()@ && final(self).remaining() == old(self).remaining().drop_last(),
            r.is_none() ==> final(self).remaining() == old(self).remaining(),
    {
        if self.front < self.back {
            let word = self.words[self.back - 1].as_str();
            assert(self.remaining().drop_last() =~= self.words@.subrange(
                self.front as int,
                self.back - 1,
            ));
            self.back = self.back - 1;
            Some(word)
        } else {
            None
        }
    }

    /// How many words are left.
    pub fn len(&self) -> (r: usize)
        requires
            self.wf(),
        ensures
            r == self.remaining().len(),
    {
        self.back - self.front
    }
}

/// A stretch of a word list that can be split in two and handed to two
/// workers.
#[derive(Debug)]
pub struct ParWordListIter<'a> {
    words: &'a Vec<String>,
    start: usize,
    end: usize,
}

impl<'a> ParWordListIter<'a> {
    /// Whether the stretch lies within its list.
    pub closed spec fn wf(&self) -> bool {
        self.start <= self.end <= self.words@.len()
    }

    /// The words of the stretch.
    pub closed spec fn remaining(&self) -> Seq<String> {
        self.words@.subrange(self.start as int, self.end as int)
    }

    /// How many words the stretch holds.
    pub fn len(&self) -> (r: usize)
        requires
            self.wf(),
        ensures
            r == self.remaining().len(),
    {
        self.end - self.start
    }

    /// Splits the stretch before its word number `index`: the first part
    /// holds the `index` words before it, the second the rest.
    pub fn split_at(self, index: usize) -> (r: (Self, Self))
        requires
            self.wf(),
            index <= self.remaining().len(),
        ensures
            r.0.wf(),
            r.1.wf(),
            r.0.remaining() == self.remaining().take(index as int),
            r.1.remaining() == self.remaining().skip(index as int),
    {
        let mid: usize = self.start + index;
        let left = ParWordListIter { words: self.words, start: self.start, end: mid };
        let right = ParWordListIter { words: self.words, start: mid, end: self.end };
        assert(left.remaining() =~= self.remaining().take(index as int));
        assert(right.remaining() =~= self.remaining().skip(index as int));
        (left, right)
    }

    /// A walk through the words of the stretch.
    pub fn into_iter(self) -> (r: WordListIter<'a>)
        requires
            self.wf(),
        ensures
            r.wf(),
            r.remaining() == self.remaining(),
    {
        WordListIter { words: self.words, front: self.start, back: self.end }
    }
}

} // verus!
