//! Keeping the most extreme words of a stream in bounded memory.

use vstd::prelude::*;
use itertools::Itertools;
use crate::extremes::{VerticalExtremes, WordExtremes};
use crate::ranking::{
    at_most, insert_ranked, lemma_cut_then_insert, lemma_insert_ranked_at,
    lemma_insert_ranked_permutes, lemma_ranked_is_ranked, lemma_ranked_permutes, most_extreme,
    rank, ranked, Side,
};

verus! {

/// The lowest-reaching and the highest-reaching words that were found.
///
/// A word may stand in both lists.
#[derive(Debug, Clone)]
pub struct Exemplars {
    lowest: Vec<WordExtremes>,
    highest: Vec<WordExtremes>,
}

impl Exemplars {
    /// The lowest-reaching words, lowest first.
    pub closed spec fn lows(&self) -> Seq<WordExtremes> {
        self.lowest@
    }

    /// The highest-reaching words, highest first.
    pub closed spec fn highs(&self) -> Seq<WordExtremes> {
        self.highest@
    }

    /// Whether both lists are equally long.
    pub open spec fn wf(&self) -> bool {
        self.lows().len() == self.highs().len()
    }

    /// The lowest-reaching words, lowest first.
    pub fn lowest(&self) -> (r: &[WordExtremes])
        ensures
            r@ == self.lows(),
    {
        self.lowest.as_slice()
    }

    /// The highest-reaching words, highest first.
    pub fn highest(&self) -> (r: &[WordExtremes])
        ensures
            r@ == self.highs(),
    {
        self.highest.as_slice()
    }

    /// Whether there are no exemplars.
    pub fn is_empty(&self) -> (r: bool)
        ensures
            r == (self.lows().len() == 0),
    {
        self.lowest.len() == 0
    }

    /// The number of exemplars in each of the two lists.
    pub fn len(&self) -> (r: usize)
        ensures
            r == self.lows().len(),
            self.wf() ==> r == self.highs().len(),
    {
        self.lowest.len()
    }
}

/// Whether two entries name the same word with the same extent.
pub open spec fn same_entry(a: WordExtremes, b: WordExtremes) -> bool {
    a.word@ == b.word@ && a.extremes == b.extremes
}

/// Whether an entry equal to `x` stands in `s`.
pub open spec fn occurs(s: Seq<WordExtremes>, x: WordExtremes) -> bool {
    exists|i: int| 0 <= i < s.len() && same_entry(#[trigger] s[i], x)
}

/// `s` without the entries that repeat an earlier one.
pub open spec fn distinct(s: Seq<WordExtremes>) -> Seq<WordExtremes>
    decreases s.len(),
{
    if s.len() == 0 {
        s
    } else if occurs(s.drop_last(), s.last()) {
        distinct(s.drop_last())
    } else {
        distinct(s.drop_last()).push(s.last())
    }
}

/// What a collector of `items` with room for `n` hands on in a merge: its
/// highest-reaching words, then its lowest-reaching ones, each entry once.
pub open spec fn kept_of(items: Seq<WordExtremes>, n: nat) -> Seq<WordExtremes> {
    distinct(most_extreme(Side::Highest, items, n) + most_extreme(Side::Lowest, items, n))
}

/// `entries` without those of which an equal one stands in `held`.
pub open spec fn unheld(entries: Seq<WordExtremes>, held: Seq<WordExtremes>) -> Seq<WordExtremes>
    decreases entries.len(),
{
    if entries.len() == 0 {
        entries
    } else if occurs(held, entries.last()) {
        unheld(entries.drop_last(), held)
    } else {
        unheld(entries.drop_last(), held).push(entries.last())
    }
}

/// What a collector of `items` with room for `n` holds: its lowest-reaching
/// words, then its highest-reaching ones.
pub open spec fn held_of(items: Seq<WordExtremes>, n: nat) -> Seq<WordExtremes> {
    most_extreme(Side::Lowest, items, n) + most_extreme(Side::Highest, items, n)
}

/// What a collector of `taken` with room for `n` is offered in a merge with
/// a collector of `other` with room for `m`: what that one hands on, but for
/// the entries that it holds itself already.
pub open spec fn handed_over(taken: Seq<WordExtremes>, n: nat, other: Seq<WordExtremes>, m: nat)
    -> Seq<WordExtremes> {
    unheld(kept_of(other, m), held_of(taken, n))
}

/// Whether two entries name the same word with the same extent.
fn is_same_entry(a: &WordExtremes, b: &WordExtremes) -> (r: bool)
    ensures
        r == same_entry(*a, *b),
{
    a.word == b.word && a.extremes.lowest == b.extremes.lowest && a.extremes.highest
        == b.extremes.highest
}

/// Whether an entry equal to `x` stands in `list`.
fn is_held(list: &Vec<WordExtremes>, x: &WordExtremes) -> (r: bool)
    ensures
        r == occurs(list@, *x),
{
    let mut i: usize = 0;
    while i < list.len()
        invariant
            i <= list.len(),
            forall|k: int| 0 <= k < i ==> !same_entry(#[trigger] list@[k], *x),
        decreases list.len() - i,
    {
        if is_same_entry(&list[i], x) {
            return true;
        }
        i = i + 1;
    }
    false
}

/// An entry stands in two lists in a row where it stands in one of them.
pub proof fn lemma_occurs_in_either(a: Seq<WordExtremes>, b: Seq<WordExtremes>, x: WordExtremes)
    ensures
        occurs(a + b, x) == (occurs(a, x) || occurs(b, x)),
{
    if occurs(a, x) {
        let i = choose|i: int| 0 <= i < a.len() && same_entry(#[trigger] a[i], x);
        assert(same_entry((a + b)[i], x));
    }
    if occurs(b, x) {
        let i = choose|i: int| 0 <= i < b.len() && same_entry(#[trigger] b[i], x);
        assert(same_entry((a + b)[a.len() + i], x));
    }
    if occurs(a + b, x) {
        let i = choose|i: int| 0 <= i < (a + b).len() && same_entry(#[trigger] (a + b)[i], x);
        if i < a.len() {
            assert(same_entry(a[i], x));
        } else {
            assert(same_entry(b[i - a.len()], x));
        }
    }
}

/// Drops every entry that repeats an earlier one, with `Itertools::unique`.
///
/// Trusted: `unique` hands on, in their order, exactly the elements that are
/// equal to none before them, and two entries are equal where their words
/// and their bounds are.
#[verifier::external_body]
fn distinct_entries(entries: Vec<WordExtremes>) -> (r: Vec<WordExtremes>)
    ensures
        r@ == distinct(entries@),
{
    entries
        .into_iter()
        .map(|entry| (entry.word, entry.extremes.lowest, entry.extremes.highest))
        .unique()
        .map(|(word, lowest, highest)| WordExtremes {
            word,
            extremes: VerticalExtremes { lowest, highest },
        })
        .collect()
}

/// Whether `a` is strictly more extreme than `b` on `side`.
fn outranks(side: Side, a: &WordExtremes, b: &WordExtremes) -> (r: bool)
    ensures
        r == (rank(side, *a) < rank(side, *b)),
{
    match side {
        Side::Lowest => a.extremes.lowest < b.extremes.lowest,
        Side::Highest => a.extremes.highest > b.extremes.highest,
    }
}

/// Whether a list that holds at most `top_n` entries keeps `x` when it is
/// offered: it does if it is not full, or if `x` is strictly more extreme
/// than its last entry.
pub open spec fn takes(side: Side, list: Seq<WordExtremes>, top_n: nat, x: WordExtremes) -> bool {
    list.len() < top_n || rank(side, x) < rank(side, list.last())
}

/// A full list stays as it is when it is offered an entry that it does not
/// take.
pub proof fn lemma_not_taken(side: Side, list: Seq<WordExtremes>, top_n: nat, x: WordExtremes)
    requires
        top_n >= 1,
        list.len() <= top_n,
        !takes(side, list, top_n, x),
    ensures
        at_most(insert_ranked(side, list, x), top_n) == list,
{
    assert(insert_ranked(side, list, x) == list.push(x));
    assert(at_most(list.push(x), top_n) =~= list);
}

/// Whether the list would keep `elem`.
fn would_take(side: Side, list: &Vec<WordExtremes>, top_n: usize, elem: &WordExtremes) -> (r: bool)
    requires
        top_n >= 1,
        list@.len() <= top_n,
    ensures
        r == takes(side, list@, top_n as nat, *elem),
{
    let len: usize = list.len();
    len < top_n || outranks(side, elem, &list[len - 1])
}

/// Puts `elem`, which the list takes, into a list that holds at most `top_n`
/// entries, most extreme first; where the list was full, its last entry
/// leaves.
fn offer(side: Side, list: &mut Vec<WordExtremes>, top_n: usize, elem: WordExtremes)
    requires
        top_n >= 1,
        old(list)@.len() <= top_n,
    ensures
        final(list)@ == at_most(insert_ranked(side, old(list)@, elem), top_n as nat),
        final(list)@.len() <= top_n,
{
    let len: usize = list.len();
    proof {
        lemma_insert_ranked_permutes(side, list@, elem);
    }
    let mut p: usize = len;
    let mut searching: bool = true;
    while searching
        invariant
            p <= len,
            len == list@.len(),
            list@ == old(list)@,
            forall|j: int| p <= j < len ==> rank(side, elem) < rank(side, list@[j]),
            !searching ==> (p > 0 ==> rank(side, list@[p - 1]) <= rank(side, elem)),
        decreases p + (if searching { 1int } else { 0int }),
    {
        if p > 0 && outranks(side, &elem, &list[p - 1]) {
            p = p - 1;
        } else {
            searching = false;
        }
    }
    proof {
        lemma_insert_ranked_at(side, list@, elem, p as int);
    }
    list.insert(p, elem);
    if list.len() > top_n {
        let ghost full = list@;
        list.pop();
        assert(list@ =~= at_most(full, top_n as nat));
    }
}

/// Takes words one at a time and keeps, of all it has been given, only the
/// `n` lowest-reaching and the `n` highest-reaching.
pub struct ExemplarCollector {
    top_n: usize,
    lowest: Vec<WordExtremes>,
    highest: Vec<WordExtremes>,
    seen: Ghost<Seq<WordExtremes>>,
}

impl ExemplarCollector {
    /// How many words are kept on each side at most.
    pub closed spec fn capacity(&self) -> nat {
        self.top_n as nat
    }

    /// Every word that was offered so far, in the order of the offers.
    pub closed spec fn seen(&self) -> Seq<WordExtremes> {
        self.seen@
    }

    /// The lowest-reaching words kept, lowest first.
    pub closed spec fn lows(&self) -> Seq<WordExtremes> {
        self.lowest@
    }

    /// The highest-reaching words kept, highest first.
    pub closed spec fn highs(&self) -> Seq<WordExtremes> {
        self.highest@
    }

    /// What the collector holds at every moment: room for at least one word,
    /// and on each side the most extreme of all the words offered so far.
    pub open spec fn wf(&self) -> bool {
        &&& self.capacity() >= 1
        &&& self.lows() == most_extreme(Side::Lowest, self.seen(), self.capacity())
        &&& self.highs() == most_extreme(Side::Highest, self.seen(), self.capacity())
    }

    /// What this collector hands on in a merge: its highest-reaching words,
    /// then its lowest-reaching ones, each entry once.
    pub open spec fn kept(&self) -> Seq<WordExtremes> {
        distinct(self.highs() + self.lows())
    }

    /// An empty collector that keeps up to `top_n` words on each side.
    pub fn new(top_n: usize) -> (r: Self)
        requires
            top_n >= 1,
        ensures
            r.wf(),
            r.capacity() == top_n,
            r.seen() == Seq::<WordExtremes>::empty(),
    {
        ExemplarCollector {
            top_n,
            lowest: Vec::with_capacity(top_n),
            highest: Vec::with_capacity(top_n),
            seen: Ghost(Seq::empty()),
        }
    }

    /// Offers a word. It is kept on a side if that side is not full or if the
    /// word is strictly more extreme than the least extreme word kept there,
    /// which then leaves. Of equally extreme words the one that came first
    /// stays.
    pub fn push(&mut self, elem: WordExtremes)
        requires
            old(self).wf(),
        ensures
            final(self).wf(),
            final(self).capacity() == old(self).capacity(),
            final(self).seen() == old(self).seen().push(elem),
            final(self).lows() == at_most(
                insert_ranked(Side::Lowest, old(self).lows(), elem),
                old(self).capacity(),
            ),
            final(self).highs() == at_most(
                insert_ranked(Side::Highest, old(self).highs(), elem),
                old(self).capacity(),
            ),
    {
        proof {
            let before = self.seen@;
            assert(before.push(elem).drop_last() =~= before);
            lemma_ranked_is_ranked(Side::Lowest, before);
            lemma_ranked_is_ranked(Side::Highest, before);
            lemma_cut_then_insert(Side::Lowest, ranked(Side::Lowest, before), elem, self.top_n as nat);
            lemma_cut_then_insert(Side::Highest, ranked(Side::Highest, before), elem, self.top_n as nat);
        }
        proof {
            lemma_ranked_permutes(Side::Lowest, self.seen@);
            lemma_ranked_permutes(Side::Highest, self.seen@);
            if !takes(Side::Lowest, self.lowest@, self.top_n as nat, elem) {
                lemma_not_taken(Side::Lowest, self.lowest@, self.top_n as nat, elem);
            }
            if !takes(Side::Highest, self.highest@, self.top_n as nat, elem) {
                lemma_not_taken(Side::Highest, self.highest@, self.top_n as nat, elem);
            }
        }
        let low = would_take(Side::Lowest, &self.lowest, self.top_n, &elem);
        let high = would_take(Side::Highest, &self.highest, self.top_n, &elem);
        // A word is copied only where both sides keep it.
        if low && high {
            let copy = elem.duplicate();
            offer(Side::Lowest, &mut self.lowest, self.top_n, copy);
            offer(Side::Highest, &mut self.highest, self.top_n, elem);
        } else if low {
            offer(Side::Lowest, &mut self.lowest, self.top_n, elem);
        } else if high {
            offer(Side::Highest, &mut self.highest, self.top_n, elem);
        }
        proof {
            self.seen@ = self.seen@.push(elem);
        }
    }

    /// The words kept on either side: the lowest-reaching, then the
    /// highest-reaching.
    pub open spec fn held(&self) -> Seq<WordExtremes> {
        self.lows() + self.highs()
    }

    /// Offers to `self` what `other` kept, each entry once, and none of
    /// which `self` holds an equal one already: an entry that stands in both
    /// collectors is counted once.
    pub fn merge_with(&mut self, other: ExemplarCollector)
        requires
            old(self).wf(),
        ensures
            final(self).wf(),
            final(self).capacity() == old(self).capacity(),
            final(self).seen() == old(self).seen() + unheld(other.kept(), old(self).held()),
            other.wf() ==> other.kept() == kept_of(other.seen(), other.capacity()),
    {
        let ExemplarCollector { top_n: _, lowest, highest, seen: _ } = other;
        let mut lowest = lowest;
        let mut all = highest;
        all.append(&mut lowest);
        let fresh = distinct_entries(all);
        let ghost held = self.held();
        let mut offered: Vec<WordExtremes> = Vec::new();
        let mut j: usize = 0;
        while j < fresh.len()
            invariant
                j <= fresh.len(),
                held == self.lowest@ + self.highest@,
                offered@ == unheld(fresh@.take(j as int), held),
            decreases fresh.len() - j,
        {
            assert(fresh@.take(j + 1).drop_last() =~= fresh@.take(j as int));
            assert(fresh@.take(j + 1).last() == fresh@[j as int]);
            proof {
                lemma_occurs_in_either(self.lowest@, self.highest@, fresh@[j as int]);
            }
            if !is_held(&self.lowest, &fresh[j]) && !is_held(&self.highest, &fresh[j]) {
                offered.push(fresh[j].duplicate());
            }
            j = j + 1;
        }
        assert(fresh@.take(fresh.len() as int) =~= fresh@);
        let mut i: usize = 0;
        while i < offered.len()
            invariant
                i <= offered.len(),
                self.wf(),
                self.capacity() == old(self).capacity(),
                self.seen() == old(self).seen() + offered@.take(i as int),
            decreases offered.len() - i,
        {
            let entry = offered[i].duplicate();
            self.push(entry);
            assert(offered@.take(i as int).push(offered@[i as int]) =~= offered@.take(i + 1));
            assert((old(self).seen() + offered@.take(i as int)).push(offered@[i as int]) =~= old(self).seen() + offered@.take(i + 1));
            i = i + 1;
        }
        assert(offered@.take(offered.len() as int) =~= offered@);
    }

    /// Ends the collection: of all the words that were offered, the
    /// `capacity` lowest-reaching, lowest first, and the `capacity`
    /// highest-reaching, highest first.
    pub fn build(self) -> (r: Exemplars)
        requires
            self.wf(),
        ensures
            r.lows() == most_extreme(Side::Lowest, self.seen(), self.capacity()),
            r.highs() == most_extreme(Side::Highest, self.seen(), self.capacity()),
            r.wf(),
    {
        proof {
            lemma_ranked_permutes(Side::Lowest, self.seen@);
            lemma_ranked_permutes(Side::Highest, self.seen@);
        }
        Exemplars { lowest: self.lowest, highest: self.highest }
    }
}

/// Collections of words with their extents from which the most extreme can
/// be picked.
pub trait CollectToExemplars: Sized {
    /// The words with their extents, in order.
    spec fn items(&self) -> Seq<WordExtremes>;

    /// The `n` lowest-reaching and the `n` highest-reaching of the words.
    fn collect_min_max_extremes(self, n: usize) -> (r: Exemplars)
        requires
            n >= 1,
        ensures
            r.lows() == most_extreme(Side::Lowest, self.items(), n as nat),
            r.highs() == most_extreme(Side::Highest, self.items(), n as nat),
            r.wf(),
    ;
}

impl CollectToExemplars for Vec<WordExtremes> {
    open spec fn items(&self) -> Seq<WordExtremes> {
        self@
    }

    fn collect_min_max_extremes(self, n: usize) -> (r: Exemplars) {
        collect_min_max_extremes(self, n)
    }
}

/// The `n` lowest-reaching and the `n` highest-reaching of `items`.
pub fn collect_min_max_extremes(items: Vec<WordExtremes>, n: usize) -> (r: Exemplars)
    requires
        n >= 1,
    ensures
        r.lows() == most_extreme(Side::Lowest, items@, n as nat),
        r.highs() == most_extreme(Side::Highest, items@, n as nat),
        r.wf(),
{
    let mut collector = ExemplarCollector::new(n);
    let mut i: usize = 0;
    while i < items.len()
        invariant
            i <= items.len(),
            collector.wf(),
            collector.capacity() == n,
            collector.seen() == items@.take(i as int),
        decreases items.len() - i,
    {
        collector.push(items[i].duplicate());
        assert(items@.take(i as int).push(items@[i as int]) =~= items@.take(i + 1));
        i = i + 1;
    }
    assert(items@.take(items.len() as int) =~= items@);
    collector.build()
}

} // verus!
