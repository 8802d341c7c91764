//! Points of a typeface's design space.

use vstd::prelude::*;
use indexmap::IndexMap;
use crate::tags::{is_tag, padded, parse_tag, tag_error, tag_number, InvalidTagError};

verus! {

#[verifier::external_type_specification]
#[verifier::external_body]
#[verifier::reject_recursive_types(K)]
#[verifier::reject_recursive_types(V)]
#[verifier::reject_recursive_types(S)]
pub struct ExIndexMap<K, V, S>(indexmap::IndexMap<K, V, S>);

/// The pairs of axis tag and coordinate that a map holds, in its order.
pub uninterp spec fn axis_entries(map: IndexMap<u32, i32>) -> Seq<(u32, i32)>;

/// The place with the number `i`.
pub open spec fn place(i: usize) -> int {
    i as int
}

/// Whether no tag stands twice in `entries`.
pub open spec fn distinct_tags(entries: Seq<(u32, i32)>) -> bool {
    forall|i: int, j: int| 0 <= i < j < entries.len() ==> entries[i].0 != entries[j].0
}

/// Whether `tag` stands in `entries`.
pub open spec fn has_tag(entries: Seq<(u32, i32)>, tag: u32) -> bool {
    exists|i: int| 0 <= i < entries.len() && (#[trigger] entries[i]).0 == tag
}

/// `entries` with `tag` set to `value`: in its place where the tag stands
/// there already, else at the end.
pub open spec fn with_axis(entries: Seq<(u32, i32)>, tag: u32, value: i32) -> Seq<(u32, i32)> {
    if has_tag(entries, tag) {
        Seq::new(
            entries.len(),
            |i: int|
                if entries[i].0 == tag {
                    (tag, value)
                } else {
                    entries[i]
                },
        )
    } else {
        entries.push((tag, value))
    }
}

/// `s` with `e` put behind every entry whose tag is not greater.
pub open spec fn insert_by_tag(s: Seq<(u32, i32)>, e: (u32, i32)) -> Seq<(u32, i32)>
    decreases s.len(),
{
    if s.len() > 0 && e.0 < s.last().0 {
        insert_by_tag(s.drop_last(), e).push(s.last())
    } else {
        s.push(e)
    }
}

/// `s` in the order of its tags.
pub open spec fn sorted_by_tag(s: Seq<(u32, i32)>) -> Seq<(u32, i32)>
    decreases s.len(),
{
    if s.len() == 0 {
        s
    } else {
        insert_by_tag(sorted_by_tag(s.drop_last()), s.last())
    }
}

/// Setting an axis leaves no tag standing twice.
pub proof fn lemma_with_axis_distinct(entries: Seq<(u32, i32)>, tag: u32, value: i32)
    requires
        distinct_tags(entries),
    ensures
        distinct_tags(with_axis(entries, tag, value)),
{
    let out = with_axis(entries, tag, value);
    if has_tag(entries, tag) {
        assert forall|i: int, j: int| 0 <= i < j < out.len() implies out[i].0 != out[j].0 by {
            assert(out[i].0 == entries[i].0 && out[j].0 == entries[j].0);
        }
    } else {
        assert forall|i: int, j: int| 0 <= i < j < out.len() implies out[i].0 != out[j].0 by {
            if j == entries.len() {
                assert(out[i] == entries[i]);
                assert(entries[i].0 != tag);
            } else {
                assert(out[i] == entries[i] && out[j] == entries[j]);
            }
        }
    }
}

/// Setting axes one after the other leaves no tag standing twice.
pub proof fn lemma_with_axes_distinct(entries: Seq<(u32, i32)>, pairs: Seq<(u32, i32)>, n: int)
    requires
        distinct_tags(entries),
    ensures
        distinct_tags(with_axes(entries, pairs, n)),
    decreases n,
{
    if n > 0 {
        lemma_with_axes_distinct(entries, pairs, n - 1);
        lemma_with_axis_distinct(with_axes(entries, pairs, n - 1), pairs[n - 1].0, pairs[n - 1].1);
    }
}

/// The place at which an entry comes to stand when it is put in by its tag.
pub proof fn lemma_insert_by_tag_place(s: Seq<(u32, i32)>, e: (u32, i32)) -> (p: int)
    ensures
        0 <= p <= s.len(),
        insert_by_tag(s, e) == s.insert(p, e),
    decreases s.len(),
{
    if s.len() > 0 && e.0 < s.last().0 {
        let p = lemma_insert_by_tag_place(s.drop_last(), e);
        assert(s.drop_last().insert(p, e).push(s.last()) =~= s.insert(p, e));
        p
    } else {
        assert(s.push(e) =~= s.insert(s.len() as int, e));
        s.len() as int
    }
}

/// Sorting keeps every entry and adds none.
pub proof fn lemma_sorted_entry(s: Seq<(u32, i32)>, i: int)
    requires
        0 <= i < sorted_by_tag(s).len(),
    ensures
        sorted_by_tag(s).len() == s.len(),
        exists|k: int| 0 <= k < s.len() && s[k] == sorted_by_tag(s)[i],
    decreases s.len(),
{
    if s.len() > 0 {
        let front = s.drop_last();
        let p = lemma_insert_by_tag_place(sorted_by_tag(front), s.last());
        lemma_sorted_len(front);
        if i == p {
            assert(s[s.len() - 1] == sorted_by_tag(s)[i]);
        } else {
            let m = if i < p { i } else { i - 1 };
            lemma_sorted_entry(front, m);
            let k = choose|k: int| 0 <= k < front.len() && front[k] == sorted_by_tag(front)[m];
            assert(s[k] == sorted_by_tag(s)[i]);
        }
    }
}

/// Sorting keeps the number of entries.
pub proof fn lemma_sorted_len(s: Seq<(u32, i32)>)
    ensures
        sorted_by_tag(s).len() == s.len(),
    decreases s.len(),
{
    if s.len() > 0 {
        lemma_sorted_len(s.drop_last());
        let p = lemma_insert_by_tag_place(sorted_by_tag(s.drop_last()), s.last());
    }
}

/// Sorting leaves no tag standing twice.
pub proof fn lemma_sorted_distinct(s: Seq<(u32, i32)>)
    requires
        distinct_tags(s),
    ensures
        distinct_tags(sorted_by_tag(s)),
    decreases s.len(),
{
    if s.len() > 0 {
        let front = s.drop_last();
        let e = s.last();
        assert(distinct_tags(front)) by {
            assert forall|i: int, j: int| 0 <= i < j < front.len() implies front[i].0
                != front[j].0 by {
                assert(front[i] == s[i] && front[j] == s[j]);
            }
        }
        lemma_sorted_distinct(front);
        lemma_sorted_len(front);
        let r = sorted_by_tag(front);
        assert forall|k: int| 0 <= k < r.len() implies (#[trigger] r[k]).0 != e.0 by {
            lemma_sorted_entry(front, k);
            let m = choose|m: int| 0 <= m < front.len() && front[m] == r[k];
            assert(s[m].0 != s[s.len() - 1].0);
        }
        let p = lemma_insert_by_tag_place(r, e);
        let out = r.insert(p, e);
        assert forall|i: int, j: int| 0 <= i < j < out.len() implies out[i].0 != out[j].0 by {
            if i == p {
                assert(out[j] == r[j - 1]);
            } else if j == p {
                assert(out[i] == r[i]);
            } else {
                let a = if i < p { i } else { i - 1 };
                let b = if j < p { j } else { j - 1 };
                assert(out[i] == r[a] && out[j] == r[b]);
            }
        }
    }
}

/// Of a location that sets no axis twice, no axis that the font lacks is
/// named twice; and each such axis is one that the location sets.
pub proof fn lemma_extras_distinct(entries: Seq<(u32, i32)>, font_axes: Seq<u32>)
    requires
        distinct_tags(entries),
    ensures
        extras_of(entries, font_axes).no_duplicates(),
        forall|i: int|
            0 <= i < extras_of(entries, font_axes).len() ==> has_tag(
                entries,
                #[trigger] extras_of(entries, font_axes)[i],
            ),
    decreases entries.len(),
{
    if entries.len() > 0 {
        let front = entries.drop_last();
        assert(distinct_tags(front)) by {
            assert forall|i: int, j: int| 0 <= i < j < front.len() implies front[i].0
                != front[j].0 by {
                assert(front[i] == entries[i] && front[j] == entries[j]);
            }
        }
        lemma_extras_distinct(front, font_axes);
        let before = extras_of(front, font_axes);
        let out = extras_of(entries, font_axes);
        assert forall|i: int| 0 <= i < before.len() implies has_tag(entries, #[trigger] before[i])
            && before[i] != entries.last().0 by {
            assert(has_tag(front, before[i]));
            let k = choose|k: int| 0 <= k < front.len() && (#[trigger] front[k]).0 == before[i];
            assert(entries[k].0 == before[i]);
            assert(entries[k].0 != entries[entries.len() - 1].0);
        }
        if !font_axes.contains(entries.last().0) {
            assert(entries[entries.len() - 1].0 == entries.last().0);
            assert forall|i: int, j: int| 0 <= i < out.len() && 0 <= j < out.len() && i != j implies
                out[i] != out[j] by {
                if i < before.len() {
                    assert(out[i] == before[i]);
                }
                if j < before.len() {
                    assert(out[j] == before[j]);
                }
            }
            assert forall|i: int| 0 <= i < out.len() implies has_tag(entries, #[trigger] out[i]) by {
                if i < before.len() {
                    assert(out[i] == before[i]);
                }
            }
        }
    }
}

/// An empty map, with `IndexMap::new`.
///
/// Trusted: the new map holds nothing.
#[verifier::external_body]
fn index_map_new() -> (r: IndexMap<u32, i32>)
    ensures
        axis_entries(r) == Seq::<(u32, i32)>::empty(),
{
    IndexMap::new()
}

/// Sets a key of the map, with `IndexMap::insert`.
///
/// Trusted: a key that the map holds keeps its place and gets the new value;
/// a new key comes last.
#[verifier::external_body]
fn index_map_insert(map: &mut IndexMap<u32, i32>, tag: u32, value: i32)
    ensures
        axis_entries(*final(map)) == with_axis(axis_entries(*old(map)), tag, value),
{
    map.insert(tag, value);
}

/// The number of pairs in the map, with `IndexMap::len`.
///
/// Trusted: it is the number of pairs that the map holds.
#[verifier::external_body]
fn index_map_len(map: &IndexMap<u32, i32>) -> (r: usize)
    ensures
        r == axis_entries(*map).len(),
{
    map.len()
}

/// The pair at a place of the map, with `IndexMap::get_index`.
///
/// Trusted: the places are numbered from 0 in the map's order.
#[verifier::external_body]
fn index_map_get_index(map: &IndexMap<u32, i32>, index: usize) -> (r: Option<(u32, i32)>)
    ensures
        r == if index < axis_entries(*map).len() {
            Some(axis_entries(*map)[index as int])
        } else {
            None
        },
{
    map.get_index(index).map(|(tag, value)| (*tag, *value))
}

/// Puts the map in the order of its keys, with `IndexMap::sort_keys`.
///
/// Trusted: the pairs are the same and stand in the order of their keys.
#[verifier::external_body]
fn index_map_sort_keys(map: &mut IndexMap<u32, i32>)
    ensures
        axis_entries(*final(map)) == sorted_by_tag(axis_entries(*old(map))),
{
    map.sort_keys();
}

/// Axes were set that the font does not have.
#[derive(Debug)]
pub struct MismatchedAxesError {
    /// The tags of those axes, in the order of the location.
    pub extras: Vec<u32>,
}

/// The tags of `entries` that are none of `font_axes`, in order.
pub open spec fn extras_of(entries: Seq<(u32, i32)>, font_axes: Seq<u32>) -> Seq<u32>
    decreases entries.len(),
{
    if entries.len() == 0 {
        Seq::empty()
    } else if font_axes.contains(entries.last().0) {
        extras_of(entries.drop_last(), font_axes)
    } else {
        extras_of(entries.drop_last(), font_axes).push(entries.last().0)
    }
}

/// Whether `tag` is one of `tags`.
fn holds_tag(tags: &Vec<u32>, tag: u32) -> (r: bool)
    ensures
        r == tags@.contains(tag),
{
    let mut i: usize = 0;
    while i < tags.len()
        invariant
            i <= tags.len(),
            forall|k: int| 0 <= k < i ==> tags@[k] != tag,
        decreases tags.len() - i,
    {
        if tags[i] == tag {
            return true;
        }
        i = i + 1;
    }
    false
}

/// A copy of the map, with `IndexMap::clone`.
///
/// Trusted: the copy holds the same pairs in the same order.
#[verifier::external_body]
fn index_map_clone(map: &IndexMap<u32, i32>) -> (r: IndexMap<u32, i32>)
    ensures
        axis_entries(r) == axis_entries(*map),
{
    map.clone()
}

/// A point of a design space: a coordinate for each of some variation axes.
///
/// An axis is named by its tag, held as a number with the first byte
/// highest, and a coordinate is a whole number of 1/65536 of the axis's
/// unit. The axes keep the order in which they were first set.
#[derive(Debug)]
pub struct Location {
    axes: IndexMap<u32, i32>,
}

impl Location {
    /// The axes that are set, each with its coordinate, in their order.
    pub closed spec fn entries(&self) -> Seq<(u32, i32)> {
        axis_entries(self.axes)
    }

    /// Whether no axis is set twice. Every location that the library makes
    /// is such, and every operation keeps a location so.
    pub open spec fn wf(&self) -> bool {
        distinct_tags(self.entries())
    }

    /// A location that sets no axis.
    pub fn new() -> (r: Self)
        ensures
            r.entries() == Seq::<(u32, i32)>::empty(),
            r.wf(),
    {
        Location { axes: index_map_new() }
    }

    /// Sets the axis with the tag number `tag`.
    pub fn set(&mut self, tag: u32, value: i32)
        ensures
            final(self).entries() == with_axis(old(self).entries(), tag, value),
            old(self).wf() ==> final(self).wf(),
    {
        proof {
            if self.wf() {
                lemma_with_axis_distinct(self.entries(), tag, value);
            }
        }
        index_map_insert(&mut self.axes, tag, value);
    }

    /// A location with the given axes, set in the order given; of an axis
    /// that is given twice the last coordinate counts.
    pub fn from_skrifa(user_coords: &Vec<(u32, i32)>) -> (r: Self)
        ensures
            r.entries() == with_axes(Seq::empty(), user_coords@, user_coords@.len() as int),
            r.wf(),
    {
        let mut location = Location::new();
        let mut i: usize = 0;
        while i < user_coords.len()
            invariant
                i <= user_coords.len(),
                location.wf(),
                location.entries() == with_axes(Seq::empty(), user_coords@, i as int),
            decreases user_coords.len() - i,
        {
            let (tag, value) = user_coords[i];
            location.set(tag, value);
            i = i + 1;
        }
        location
    }

    /// Sets the axis that the bytes `tag` name, or refuses bytes that are no
    /// tag and leaves the location as it was.
    pub fn axis(&mut self, tag: &[u8], value: i32) -> (r: Result<(), InvalidTagError>)
        ensures
            r.is_ok() == is_tag(tag@),
            r.is_ok() ==> final(self).entries() == with_axis(
                old(self).entries(),
                tag_number(padded(tag@)),
                value,
            ),
            r.is_err() ==> r.unwrap_err() == tag_error(tag@) && final(self).entries() == old(self).entries(),
            old(self).wf() ==> final(self).wf(),
    {
        match parse_tag(tag) {
            Ok(number) => {
                self.set(number, value);
                Ok(())
            },
            Err(e) => Err(e),
        }
    }

    /// How many axes are set.
    pub fn len(&self) -> (r: usize)
        ensures
            r == self.entries().len(),
    {
        index_map_len(&self.axes)
    }

    /// The axis at place `index` and its coordinate.
    pub fn get_index(&self, index: usize) -> (r: Option<(u32, i32)>)
        ensures
            r == if index < self.entries().len() {
                Some(self.entries()[index as int])
            } else {
                None
            },
    {
        index_map_get_index(&self.axes, index)
    }

    /// The axes with their coordinates, in their order.
    pub fn to_harfrust(&self) -> (r: Vec<(u32, i32)>)
        ensures
            r@ == self.entries(),
    {
        let n = self.len();
        let mut out: Vec<(u32, i32)> = Vec::new();
        let mut i: usize = 0;
        while i < n
            invariant
                i <= n,
                n == self.entries().len(),
                out@ == self.entries().take(i as int),
            decreases n - i,
        {
            match self.get_index(i) {
                Some(pair) => {
                    out.push(pair);
                },
                None => {},
            }
            assert(self.entries().take(i as int).push(self.entries()[i as int])
                =~= self.entries().take(i + 1));
            i = i + 1;
        }
        assert(self.entries().take(n as int) =~= self.entries());
        out
    }

    /// Checks that every axis that is set is one of the font's axes, whose
    /// tags are `font_axes`. Axes of the font may be left unset.
    pub fn validate_for(&self, font_axes: &Vec<u32>) -> (r: Result<(), MismatchedAxesError>)
        ensures
            r.is_ok() == (extras_of(self.entries(), font_axes@).len() == 0),
            r.is_err() ==> r.unwrap_err().extras@ == extras_of(self.entries(), font_axes@),
            r.is_err() && self.wf() ==> r.unwrap_err().extras@.no_duplicates(),
    {
        proof {
            if self.wf() {
                lemma_extras_distinct(self.entries(), font_axes@);
            }
        }
        let n = self.len();
        let mut extras: Vec<u32> = Vec::new();
        let mut i: usize = 0;
        while i < n
            invariant
                i <= n,
                n == self.entries().len(),
                extras@ == extras_of(self.entries().take(i as int), font_axes@),
            decreases n - i,
        {
            assert(self.entries().take(i + 1).drop_last() =~= self.entries().take(i as int));
            match self.get_index(i) {
                Some(pair) => {
                    if !holds_tag(font_axes, pair.0) {
                        extras.push(pair.0);
                    }
                },
                None => {},
            }
            i = i + 1;
        }
        assert(self.entries().take(n as int) =~= self.entries());
        if extras.len() == 0 {
            Ok(())
        } else {
            Err(MismatchedAxesError { extras })
        }
    }

    /// Puts the axes in the order of their tags.
    pub fn sort_axes(&mut self)
        ensures
            final(self).entries() == sorted_by_tag(old(self).entries()),
            old(self).wf() ==> final(self).wf(),
    {
        proof {
            if self.wf() {
                lemma_sorted_distinct(self.entries());
            }
        }
        index_map_sort_keys(&mut self.axes);
    }
}

impl Clone for Location {
    fn clone(&self) -> (r: Self)
        ensures
            r.entries() == self.entries(),
            r.wf() == self.wf(),
    {
        Location { axes: index_map_clone(&self.axes) }
    }
}

/// `entries` after the first `n` of `pairs` were set, one after the other.
pub open spec fn with_axes(entries: Seq<(u32, i32)>, pairs: Seq<(u32, i32)>, n: int) -> Seq<
    (u32, i32),
>
    decreases n,
{
    if n <= 0 {
        entries
    } else {
        with_axis(with_axes(entries, pairs, n - 1), pairs[n - 1].0, pairs[n - 1].1)
    }
}

} // verus!
