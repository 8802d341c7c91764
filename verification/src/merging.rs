//! Why collectors can be merged: a collector that took the words that
//! another one kept holds what it would hold had it taken all of the
//! other's words.

use vstd::prelude::*;
use crate::exemplars::{
    distinct, handed_over, held_of, kept_of, occurs, same_entry, unheld,
};
use crate::extremes::{VerticalExtremes, WordExtremes};
use crate::instance::word_extent;
use crate::reporter::{measured, reduced, ShapedWord};
use crate::ranking::{
    insert_ranked, is_ranked, lemma_entry_of_insert, lemma_ranked_is_ranked, lemma_ranked_permutes,
    most_extreme, rank, ranked, ranks, Side,
};

verus! {

/// The lesser of two numbers.
pub open spec fn least(a: int, b: int) -> int {
    if a <= b {
        a
    } else {
        b
    }
}

/// How many entries of `s` are at least as extreme as the rank `v`.
pub open spec fn below(side: Side, s: Seq<WordExtremes>, v: int) -> nat
    decreases s.len(),
{
    if s.len() == 0 {
        0
    } else {
        below(side, s.drop_last(), v) + if rank(side, s.last()) <= v {
            1nat
        } else {
            0nat
        }
    }
}

/// Whether no two entries of `s` name the same word with the same extent.
pub open spec fn no_repeats(s: Seq<WordExtremes>) -> bool {
    forall|i: int, j: int| 0 <= i < j < s.len() ==> !same_entry(s[i], s[j])
}

proof fn lemma_below_bound(side: Side, s: Seq<WordExtremes>, v: int)
    ensures
        below(side, s, v) <= s.len(),
    decreases s.len(),
{
    if s.len() > 0 {
        lemma_below_bound(side, s.drop_last(), v);
    }
}

proof fn lemma_below_all(side: Side, s: Seq<WordExtremes>, v: int)
    requires
        forall|i: int| 0 <= i < s.len() ==> rank(side, s[i]) <= v,
    ensures
        below(side, s, v) == s.len(),
    decreases s.len(),
{
    if s.len() > 0 {
        let front = s.drop_last();
        assert forall|i: int| 0 <= i < front.len() implies rank(side, front[i]) <= v by {
            assert(front[i] == s[i]);
        }
        lemma_below_all(side, front, v);
        assert(s.last() == s[s.len() - 1]);
    }
}

proof fn lemma_below_push(side: Side, s: Seq<WordExtremes>, x: WordExtremes, v: int)
    ensures
        below(side, s.push(x), v) == below(side, s, v) + if rank(side, x) <= v {
            1nat
        } else {
            0nat
        },
{
    assert(s.push(x).drop_last() =~= s);
    assert(s.push(x).last() == x);
}

proof fn lemma_below_insert(side: Side, s: Seq<WordExtremes>, x: WordExtremes, v: int)
    ensures
        below(side, insert_ranked(side, s, x), v) == below(side, s, v) + if rank(side, x) <= v {
            1nat
        } else {
            0nat
        },
    decreases s.len(),
{
    if s.len() > 0 && rank(side, x) < rank(side, s.last()) {
        lemma_below_insert(side, s.drop_last(), x, v);
        lemma_below_push(side, insert_ranked(side, s.drop_last(), x), s.last(), v);
    } else {
        lemma_below_push(side, s, x, v);
    }
}

proof fn lemma_below_ranked(side: Side, items: Seq<WordExtremes>, v: int)
    ensures
        below(side, ranked(side, items), v) == below(side, items, v),
    decreases items.len(),
{
    if items.len() > 0 {
        lemma_below_ranked(side, items.drop_last(), v);
        lemma_below_insert(side, ranked(side, items.drop_last()), items.last(), v);
    }
}

proof fn lemma_below_concat(side: Side, a: Seq<WordExtremes>, b: Seq<WordExtremes>, v: int)
    ensures
        below(side, a + b, v) == below(side, a, v) + below(side, b, v),
    decreases b.len(),
{
    if b.len() == 0 {
        assert(a + b =~= a);
    } else {
        lemma_below_concat(side, a, b.drop_last(), v);
        assert((a + b).drop_last() =~= a + b.drop_last());
        assert((a + b).last() == b.last());
    }
}

proof fn lemma_front_is_ranked(side: Side, t: Seq<WordExtremes>, k: int)
    requires
        is_ranked(side, t),
        0 <= k <= t.len(),
    ensures
        is_ranked(side, t.take(k)),
{
    assert forall|i: int, j: int| 0 <= i <= j < t.take(k).len() implies rank(side, t.take(k)[i])
        <= rank(side, t.take(k)[j]) by {
        assert(t.take(k)[i] == t[i] && t.take(k)[j] == t[j]);
    }
}

proof fn lemma_below_take(side: Side, t: Seq<WordExtremes>, k: int, v: int)
    requires
        is_ranked(side, t),
        0 <= k <= t.len(),
    ensures
        below(side, t.take(k), v) == least(k, below(side, t, v) as int),
    decreases t.len(),
{
    lemma_below_bound(side, t, v);
    if k == t.len() {
        assert(t.take(k) =~= t);
    } else {
        let front = t.drop_last();
        lemma_front_is_ranked(side, t, t.len() - 1);
        assert(front =~= t.take(t.len() - 1));
        assert(t.take(k) =~= front.take(k));
        lemma_below_take(side, front, k, v);
        lemma_below_bound(side, front, v);
        if rank(side, t.last()) <= v {
            assert forall|i: int| 0 <= i < front.len() implies rank(side, front[i]) <= v by {
                assert(front[i] == t[i]);
                assert(rank(side, t[i]) <= rank(side, t[t.len() - 1]));
            }
            lemma_below_all(side, front, v);
        }
    }
}

/// Of the most extreme `n`, as many are at least as extreme as `v` as there
/// are such items at all, but no more than `n`.
pub proof fn lemma_below_most_extreme(side: Side, items: Seq<WordExtremes>, n: nat, v: int)
    ensures
        below(side, most_extreme(side, items, n), v) == least(
            n as int,
            below(side, items, v) as int,
        ),
{
    let t = ranked(side, items);
    lemma_ranked_is_ranked(side, items);
    lemma_below_ranked(side, items, v);
    lemma_below_bound(side, t, v);
    if t.len() > n {
        lemma_below_take(side, t, n as int, v);
    }
}

/// Two ranked lists that have, for every rank, equally many entries at
/// least that extreme hold the same ranks.
pub proof fn lemma_same_counts_same_ranks(side: Side, a: Seq<WordExtremes>, b: Seq<WordExtremes>)
    requires
        is_ranked(side, a),
        is_ranked(side, b),
        forall|v: int| below(side, a, v) == below(side, b, v),
    ensures
        ranks(side, a) == ranks(side, b),
    decreases a.len(),
{
    if a.len() == 0 {
        if b.len() > 0 {
            let v = rank(side, b.last());
            lemma_below_bound(side, b.drop_last(), v);
            assert(below(side, b, v) >= 1);
            assert(below(side, a, v) == 0);
        }
        assert(ranks(side, a) =~= ranks(side, b));
    } else if b.len() == 0 {
        let v = rank(side, a.last());
        lemma_below_bound(side, a.drop_last(), v);
        assert(below(side, a, v) >= 1);
        assert(below(side, b, v) == 0);
    } else {
        let ra = rank(side, a.last());
        let rb = rank(side, b.last());
        let a2 = a.drop_last();
        let b2 = b.drop_last();
        assert forall|i: int| 0 <= i < a.len() implies rank(side, a[i]) <= ra by {
            assert(rank(side, a[i]) <= rank(side, a[a.len() - 1]));
        }
        assert forall|i: int| 0 <= i < b.len() implies rank(side, b[i]) <= rb by {
            assert(rank(side, b[i]) <= rank(side, b[b.len() - 1]));
        }
        lemma_below_all(side, a, ra);
        lemma_below_all(side, b, rb);
        if ra < rb {
            lemma_below_all(side, a, rb);
            lemma_below_bound(side, b2, ra);
            assert(below(side, a, rb) == below(side, b, rb));
            assert(below(side, a, ra) == below(side, b, ra));
            assert(false);
        }
        if rb < ra {
            lemma_below_all(side, b, ra);
            lemma_below_bound(side, a2, rb);
            assert(below(side, a, ra) == below(side, b, ra));
            assert(below(side, a, rb) == below(side, b, rb));
            assert(false);
        }
        lemma_front_is_ranked(side, a, a.len() - 1);
        lemma_front_is_ranked(side, b, b.len() - 1);
        assert(a2 =~= a.take(a.len() - 1));
        assert(b2 =~= b.take(b.len() - 1));
        assert forall|v: int| below(side, a2, v) == below(side, b2, v) by {
            assert(below(side, a, v) == below(side, b, v));
        }
        lemma_same_counts_same_ranks(side, a2, b2);
        assert(ranks(side, a2).len() == ranks(side, b2).len());
        assert forall|i: int| 0 <= i < a.len() implies ranks(side, a)[i] == ranks(side, b)[i] by {
            if i < a.len() - 1 {
                assert(ranks(side, a2)[i] == ranks(side, b2)[i]);
                assert(a2[i] == a[i] && b2[i] == b[i]);
            }
        }
        assert(ranks(side, a) =~= ranks(side, b));
    }
}

proof fn lemma_below_remove(side: Side, s: Seq<WordExtremes>, i: int, v: int)
    requires
        0 <= i < s.len(),
    ensures
        below(side, s, v) == below(side, s.remove(i), v) + if rank(side, s[i]) <= v {
            1nat
        } else {
            0nat
        },
    decreases s.len(),
{
    if i == s.len() - 1 {
        assert(s.remove(i) =~= s.drop_last());
    } else {
        lemma_below_remove(side, s.drop_last(), i, v);
        assert(s.remove(i).drop_last() =~= s.drop_last().remove(i));
        assert(s.remove(i).last() == s.last());
    }
}

/// A list without repeats, each of whose entries occurs in another list,
/// has for every rank no more entries at least that extreme than the other.
pub proof fn lemma_below_injects(side: Side, a: Seq<WordExtremes>, b: Seq<WordExtremes>, v: int)
    requires
        no_repeats(a),
        forall|i: int| 0 <= i < a.len() ==> occurs(b, #[trigger] a[i]),
    ensures
        below(side, a, v) <= below(side, b, v),
    decreases b.len(),
{
    if b.len() == 0 {
        if a.len() > 0 {
            assert(occurs(b, a[0]));
        }
    } else {
        let y = b.last();
        let b2 = b.drop_last();
        if exists|i: int| 0 <= i < a.len() && same_entry(a[i], y) {
            let i = choose|i: int| 0 <= i < a.len() && same_entry(a[i], y);
            let a2 = a.remove(i);
            assert forall|p: int, q: int| 0 <= p < q < a2.len() implies !same_entry(
                a2[p],
                a2[q],
            ) by {
                let from_p = if p < i { p } else { p + 1 };
                let from_q = if q < i { q } else { q + 1 };
                assert(a2[p] == a[from_p] && a2[q] == a[from_q]);
            }
            assert forall|k: int| 0 <= k < a2.len() implies occurs(b2, #[trigger] a2[k]) by {
                let from_k = if k < i { k } else { k + 1 };
                assert(a2[k] == a[from_k]);
                assert(occurs(b, a[from_k]));
                let j = choose|j: int| 0 <= j < b.len() && same_entry(#[trigger] b[j], a[from_k]);
                if j == b.len() - 1 {
                    if from_k < i {
                        assert(!same_entry(a[from_k], a[i]));
                    } else {
                        assert(!same_entry(a[i], a[from_k]));
                    }
                    assert(false);
                }
                assert(same_entry(b2[j], a2[k]));
            }
            lemma_below_injects(side, a2, b2, v);
            lemma_below_remove(side, a, i, v);
        } else {
            assert forall|k: int| 0 <= k < a.len() implies occurs(b2, #[trigger] a[k]) by {
                assert(occurs(b, a[k]));
                let j = choose|j: int| 0 <= j < b.len() && same_entry(#[trigger] b[j], a[k]);
                if j == b.len() - 1 {
                    assert(same_entry(a[k], y));
                    assert(false);
                }
                assert(same_entry(b2[j], a[k]));
            }
            lemma_below_injects(side, a, b2, v);
        }
    }
}

/// What `distinct` keeps: no entry twice, nothing that was not there, and
/// of every entry that was there an equal one.
pub proof fn lemma_distinct(s: Seq<WordExtremes>)
    ensures
        no_repeats(distinct(s)),
        forall|i: int| 0 <= i < distinct(s).len() ==> occurs(s, #[trigger] distinct(s)[i]),
        forall|i: int| 0 <= i < s.len() ==> occurs(distinct(s), #[trigger] s[i]),
    decreases s.len(),
{
    if s.len() > 0 {
        let front = s.drop_last();
        let d = distinct(front);
        let out = distinct(s);
        lemma_distinct(front);
        assert forall|i: int| 0 <= i < d.len() implies occurs(s, #[trigger] d[i]) by {
            assert(occurs(front, d[i]));
            let j = choose|j: int| 0 <= j < front.len() && same_entry(#[trigger] front[j], d[i]);
            assert(same_entry(s[j], d[i]));
        }
        if occurs(front, s.last()) {
            assert forall|i: int| 0 <= i < s.len() implies occurs(out, #[trigger] s[i]) by {
                if i < s.len() - 1 {
                    assert(front[i] == s[i]);
                    assert(occurs(d, front[i]));
                } else {
                    let j = choose|j: int|
                        0 <= j < front.len() && same_entry(#[trigger] front[j], s.last());
                    assert(occurs(d, front[j]));
                    let k = choose|k: int| 0 <= k < d.len() && same_entry(#[trigger] d[k], front[j]);
                    assert(same_entry(d[k], s[i]));
                }
            }
        } else {
            assert forall|p: int, q: int| 0 <= p < q < out.len() implies !same_entry(
                out[p],
                out[q],
            ) by {
                if q == out.len() - 1 {
                    assert(out[p] == d[p]);
                    if same_entry(d[p], s.last()) {
                        assert(occurs(front, d[p]));
                        let j = choose|j: int|
                            0 <= j < front.len() && same_entry(#[trigger] front[j], d[p]);
                        assert(same_entry(front[j], s.last()));
                        assert(false);
                    }
                } else {
                    assert(out[p] == d[p] && out[q] == d[q]);
                }
            }
            assert forall|i: int| 0 <= i < out.len() implies occurs(s, #[trigger] out[i]) by {
                if i < d.len() {
                    assert(out[i] == d[i]);
                    assert(occurs(s, d[i]));
                } else {
                    assert(same_entry(s[s.len() - 1], out[i]));
                }
            }
            assert forall|i: int| 0 <= i < s.len() implies occurs(out, #[trigger] s[i]) by {
                if i < s.len() - 1 {
                    assert(front[i] == s[i]);
                    assert(occurs(d, front[i]));
                    let k = choose|k: int| 0 <= k < d.len() && same_entry(#[trigger] d[k], front[i]);
                    assert(same_entry(out[k], s[i]));
                } else {
                    assert(same_entry(out[out.len() - 1], s[i]));
                }
            }
        }
    }
}

/// Every entry of a ranked list is one of the items that were ranked.
pub proof fn lemma_ranked_entry(side: Side, items: Seq<WordExtremes>, i: int)
    requires
        0 <= i < ranked(side, items).len(),
    ensures
        exists|k: int| 0 <= k < items.len() && items[k] == ranked(side, items)[i],
    decreases items.len(),
{
    if items.len() > 0 {
        let front = items.drop_last();
        let e = ranked(side, items)[i];
        lemma_entry_of_insert(side, ranked(side, front), items.last(), i);
        if e == items.last() {
            assert(items[items.len() - 1] == e);
        } else {
            let m = choose|m: int| 0 <= m < ranked(side, front).len() && ranked(side, front)[m] == e;
            lemma_ranked_entry(side, front, m);
            let k = choose|k: int| 0 <= k < front.len() && front[k] == ranked(side, front)[m];
            assert(items[k] == e);
        }
    }
}

/// Every one of the most extreme items is one of the items.
pub proof fn lemma_most_extreme_entry(side: Side, items: Seq<WordExtremes>, n: nat, i: int)
    requires
        0 <= i < most_extreme(side, items, n).len(),
    ensures
        occurs(items, most_extreme(side, items, n)[i]),
{
    lemma_ranked_entry(side, items, i);
    let k = choose|k: int| 0 <= k < items.len() && items[k] == ranked(side, items)[i];
    assert(same_entry(items[k], most_extreme(side, items, n)[i]));
}

/// Every entry that a collector hands on in a merge is one of the items it
/// was offered.
pub proof fn lemma_kept_entry(items: Seq<WordExtremes>, n: nat, i: int)
    requires
        0 <= i < kept_of(items, n).len(),
    ensures
        occurs(items, kept_of(items, n)[i]),
{
    let highs = most_extreme(Side::Highest, items, n);
    let lows = most_extreme(Side::Lowest, items, n);
    let u = kept_of(items, n);
    lemma_distinct(highs + lows);
    assert(occurs(highs + lows, u[i]));
    let j = choose|j: int|
        0 <= j < (highs + lows).len() && same_entry(#[trigger] (highs + lows)[j], u[i]);
    if j < highs.len() {
        lemma_most_extreme_entry(Side::Highest, items, n, j);
        let k = choose|k: int| 0 <= k < items.len() && same_entry(#[trigger] items[k], highs[j]);
        assert(same_entry(items[k], u[i]));
    } else {
        lemma_most_extreme_entry(Side::Lowest, items, n, j - highs.len());
        let k = choose|k: int|
            0 <= k < items.len() && same_entry(#[trigger] items[k], lows[j - highs.len()]);
        assert(same_entry(items[k], u[i]));
    }
}

/// Every entry that a collector holds is one of the items it was offered.
pub proof fn lemma_held_entry(items: Seq<WordExtremes>, n: nat, i: int)
    requires
        0 <= i < held_of(items, n).len(),
    ensures
        occurs(items, held_of(items, n)[i]),
{
    let lows = most_extreme(Side::Lowest, items, n);
    if i < lows.len() {
        lemma_most_extreme_entry(Side::Lowest, items, n, i);
    } else {
        lemma_most_extreme_entry(Side::Highest, items, n, i - lows.len());
    }
}

/// Entries of which the collector holds no equal one are all offered.
pub proof fn lemma_unheld_keeps_all(entries: Seq<WordExtremes>, held: Seq<WordExtremes>)
    requires
        forall|i: int| 0 <= i < entries.len() ==> !occurs(held, #[trigger] entries[i]),
    ensures
        unheld(entries, held) == entries,
    decreases entries.len(),
{
    if entries.len() > 0 {
        let front = entries.drop_last();
        assert forall|i: int| 0 <= i < front.len() implies !occurs(held, #[trigger] front[i]) by {
            assert(front[i] == entries[i]);
        }
        lemma_unheld_keeps_all(front, held);
        assert(entries.last() == entries[entries.len() - 1]);
        assert(front.push(entries.last()) =~= entries);
    }
}

/// The place at which an entry comes to stand in a list.
pub proof fn lemma_insert_ranked_place(side: Side, s: Seq<WordExtremes>, x: WordExtremes) -> (p:
    int)
    ensures
        0 <= p <= s.len(),
        insert_ranked(side, s, x) == s.insert(p, x),
    decreases s.len(),
{
    if s.len() > 0 && rank(side, x) < rank(side, s.last()) {
        let p = lemma_insert_ranked_place(side, s.drop_last(), x);
        assert(s.drop_last().insert(p, x).push(s.last()) =~= s.insert(p, x));
        p
    } else {
        assert(s.push(x) =~= s.insert(s.len() as int, x));
        s.len() as int
    }
}

/// Part of a list without repeats is without repeats.
pub proof fn lemma_no_repeats_part(s: Seq<WordExtremes>, from: int, to: int)
    requires
        no_repeats(s),
        0 <= from <= to <= s.len(),
    ensures
        no_repeats(s.subrange(from, to)),
{
    let part = s.subrange(from, to);
    assert forall|i: int, j: int| 0 <= i < j < part.len() implies !same_entry(part[i], part[j]) by {
        assert(part[i] == s[from + i] && part[j] == s[from + j]);
    }
}

/// Items without repeats are without repeats when ranked.
pub proof fn lemma_no_repeats_ranked(side: Side, items: Seq<WordExtremes>)
    requires
        no_repeats(items),
    ensures
        no_repeats(ranked(side, items)),
    decreases items.len(),
{
    if items.len() > 0 {
        let front = items.drop_last();
        let x = items.last();
        lemma_no_repeats_part(items, 0, items.len() - 1);
        assert(front =~= items.subrange(0, items.len() - 1));
        lemma_no_repeats_ranked(side, front);
        let r = ranked(side, front);
        lemma_ranked_permutes(side, front);
        assert forall|k: int| 0 <= k < r.len() implies !same_entry(#[trigger] r[k], x) by {
            lemma_ranked_entry(side, front, k);
            let m = choose|m: int| 0 <= m < front.len() && front[m] == r[k];
            assert(front[m] == items[m]);
            assert(!same_entry(items[m], items[items.len() - 1]));
        }
        let p = lemma_insert_ranked_place(side, r, x);
        let out = r.insert(p, x);
        assert forall|i: int, j: int| 0 <= i < j < out.len() implies !same_entry(out[i], out[j]) by {
            if i == p {
                assert(out[j] == r[j - 1]);
                assert(!same_entry(r[j - 1], x));
            } else if j == p {
                assert(out[i] == r[i]);
                assert(!same_entry(r[i], x));
            } else {
                let a = if i < p { i } else { i - 1 };
                let b = if j < p { j } else { j - 1 };
                assert(out[i] == r[a] && out[j] == r[b]);
            }
        }
    }
}

/// Of items without repeats the most extreme are without repeats.
pub proof fn lemma_no_repeats_most_extreme(side: Side, items: Seq<WordExtremes>, n: nat)
    requires
        no_repeats(items),
    ensures
        no_repeats(most_extreme(side, items, n)),
{
    lemma_no_repeats_ranked(side, items);
    if ranked(side, items).len() > n {
        lemma_no_repeats_part(ranked(side, items), 0, n as int);
        assert(ranked(side, items).take(n as int) =~= ranked(side, items).subrange(0, n as int));
    }
}

/// What a collector hands on in a merge holds, for every rank, as many
/// entries at least that extreme as the items it was offered, or at least
/// as many as it has room for; and never more than those items.
///
/// This holds where the collector's list on that side names no word with
/// the same extent twice: a merge offers such an entry once only.
pub proof fn lemma_kept_counts(side: Side, items: Seq<WordExtremes>, n: nat, v: int)
    requires
        no_repeats(most_extreme(side, items, n)),
    ensures
        least(n as int, below(side, items, v) as int) <= below(side, kept_of(items, n), v),
        below(side, kept_of(items, n), v) <= below(side, items, v),
{
    let highs = most_extreme(Side::Highest, items, n);
    let lows = most_extreme(Side::Lowest, items, n);
    let own = most_extreme(side, items, n);
    let u = kept_of(items, n);
    lemma_distinct(highs + lows);
    assert forall|i: int| 0 <= i < own.len() implies occurs(u, #[trigger] own[i]) by {
        match side {
            Side::Lowest => {
                assert((highs + lows)[highs.len() + i] == own[i]);
                assert(occurs(u, (highs + lows)[highs.len() + i]));
            },
            Side::Highest => {
                assert((highs + lows)[i] == own[i]);
                assert(occurs(u, (highs + lows)[i]));
            },
        }
    }
    assert forall|i: int| 0 <= i < u.len() implies occurs(items, #[trigger] u[i]) by {
        assert(occurs(highs + lows, u[i]));
        let j = choose|j: int|
            0 <= j < (highs + lows).len() && same_entry(#[trigger] (highs + lows)[j], u[i]);
        if j < highs.len() {
            lemma_most_extreme_entry(Side::Highest, items, n, j);
            let k = choose|k: int| 0 <= k < items.len() && same_entry(#[trigger] items[k], highs[j]);
            assert(same_entry(items[k], u[i]));
        } else {
            lemma_most_extreme_entry(Side::Lowest, items, n, j - highs.len());
            let k = choose|k: int|
                0 <= k < items.len() && same_entry(#[trigger] items[k], lows[j - highs.len()]);
            assert(same_entry(items[k], u[i]));
        }
    }
    lemma_below_most_extreme(side, items, n, v);
    lemma_below_injects(side, own, u, v);
    lemma_below_injects(side, u, items, v);
}

/// The most extreme `n` of a list stand in ranked order.
proof fn lemma_most_extreme_is_ranked(side: Side, items: Seq<WordExtremes>, n: nat)
    ensures
        is_ranked(side, most_extreme(side, items, n)),
{
    lemma_ranked_is_ranked(side, items);
    lemma_ranked_permutes(side, items);
    if ranked(side, items).len() > n {
        lemma_front_is_ranked(side, ranked(side, items), n as int);
    }
}

/// Merging is as good as collecting the whole: a collector that has taken
/// the items `s1` and is merged with a collector of the items `s2` reaches,
/// on each side, as far with each of its words as one that has taken `s1`
/// and then all of `s2`.
///
/// This holds where a merge drops nothing: where the other collector's list
/// on that side names no word with the same extent twice, and where it
/// hands on no entry of which the first collector holds an equal one. Which
/// of several equally extreme words are kept may differ.
pub proof fn lemma_merge_matches_whole(
    side: Side,
    s1: Seq<WordExtremes>,
    s2: Seq<WordExtremes>,
    n: nat,
)
    requires
        no_repeats(most_extreme(side, s2, n)),
        forall|i: int|
            0 <= i < kept_of(s2, n).len() ==> !occurs(held_of(s1, n), #[trigger] kept_of(s2, n)[i]),
    ensures
        ranks(side, most_extreme(side, s1 + handed_over(s1, n, s2, n), n)) == ranks(
            side,
            most_extreme(side, s1 + s2, n),
        ),
{
    let u = kept_of(s2, n);
    lemma_unheld_keeps_all(u, held_of(s1, n));
    let a = most_extreme(side, s1 + u, n);
    let b = most_extreme(side, s1 + s2, n);
    assert forall|v: int| below(side, a, v) == below(side, b, v) by {
        lemma_below_most_extreme(side, s1 + u, n, v);
        lemma_below_most_extreme(side, s1 + s2, n, v);
        lemma_below_concat(side, s1, u, v);
        lemma_below_concat(side, s1, s2, v);
        lemma_kept_counts(side, s2, n, v);
    }
    lemma_most_extreme_is_ranked(side, s1 + u, n);
    lemma_most_extreme_is_ranked(side, s1 + s2, n);
    lemma_same_counts_same_ranks(side, a, b);
}

/// No entry that a collector of `later` hands on equals one that a collector
/// of `earlier` holds, where the two lists in a row are without repeats.
proof fn lemma_nothing_held(earlier: Seq<WordExtremes>, later: Seq<WordExtremes>, n: nat, m: nat)
    requires
        forall|a: int, b: int|
            0 <= a < earlier.len() && 0 <= b < later.len() ==> !same_entry(
                earlier[a],
                later[b],
            ),
    ensures
        forall|i: int|
            0 <= i < kept_of(later, m).len() ==> !occurs(
                held_of(earlier, n),
                #[trigger] kept_of(later, m)[i],
            ),
{
    let held = held_of(earlier, n);
    let u = kept_of(later, m);
    assert forall|i: int| 0 <= i < u.len() implies !occurs(held, #[trigger] u[i]) by {
        if occurs(held, u[i]) {
            let j = choose|j: int| 0 <= j < held.len() && same_entry(#[trigger] held[j], u[i]);
            lemma_held_entry(earlier, n, j);
            let a = choose|a: int|
                0 <= a < earlier.len() && same_entry(#[trigger] earlier[a], held[j]);
            lemma_kept_entry(later, m, i);
            let b = choose|b: int| 0 <= b < later.len() && same_entry(#[trigger] later[b], u[i]);
            assert(same_entry(earlier[a], later[b]));
            assert(false);
        }
    }
}

/// Merging the collectors of the two parts of a list is as good as
/// collecting the list: where no word stands in the list twice with the
/// same extent, a collector of the first part that is merged with a
/// collector of the second reaches, on each side, as far with each of its
/// words as a collector of the whole list.
pub proof fn lemma_merge_of_partition(
    side: Side,
    s1: Seq<WordExtremes>,
    s2: Seq<WordExtremes>,
    n: nat,
)
    requires
        no_repeats(s1 + s2),
    ensures
        ranks(side, most_extreme(side, s1 + handed_over(s1, n, s2, n), n)) == ranks(
            side,
            most_extreme(side, s1 + s2, n),
        ),
{
    let all = s1 + s2;
    lemma_no_repeats_part(all, s1.len() as int, all.len() as int);
    assert(all.subrange(s1.len() as int, all.len() as int) =~= s2);
    lemma_no_repeats_most_extreme(side, s2, n);
    assert forall|a: int, b: int| 0 <= a < s1.len() && 0 <= b < s2.len() implies !same_entry(
        s1[a],
        s2[b],
    ) by {
        assert(all[a] == s1[a] && all[s1.len() + b] == s2[b]);
    }
    lemma_nothing_held(s1, s2, n, n);
    lemma_merge_matches_whole(side, s1, s2, n);
}

/// The measured words of two lists in a row are those of the first and then
/// those of the second.
pub proof fn lemma_measured_concat(
    a: Seq<ShapedWord>,
    b: Seq<ShapedWord>,
    bounds: Map<u32, VerticalExtremes>,
)
    ensures
        measured(a + b, bounds) == measured(a, bounds) + measured(b, bounds),
    decreases b.len(),
{
    if b.len() == 0 {
        assert(a + b =~= a);
        assert(measured(a, bounds) + measured(b, bounds) =~= measured(a, bounds));
    } else {
        lemma_measured_concat(a, b.drop_last(), bounds);
        assert((a + b).drop_last() =~= a + b.drop_last());
        assert((a + b).last() == b.last());
        let front = measured(b.drop_last(), bounds);
        match word_extent(b.last().glyphs@, bounds) {
            Some(extremes) => {
                let w = WordExtremes { word: b.last().word, extremes };
                assert((measured(a, bounds) + front).push(w) =~= measured(a, bounds) + front.push(
                    w,
                ));
            },
            None => {},
        }
    }
}

proof fn lemma_sharded_from(
    side: Side,
    words: Seq<ShapedWord>,
    bounds: Map<u32, VerticalExtremes>,
    n: nat,
    shard_len: nat,
    start: int,
    merged: Seq<WordExtremes>,
)
    requires
        0 <= start <= words.len(),
        shard_len >= 1,
        no_repeats(measured(words, bounds)),
        forall|i: int|
            0 <= i < merged.len() ==> occurs(
                measured(words.take(start), bounds),
                #[trigger] merged[i],
            ),
        forall|v: int|
            least(n as int, below(side, merged, v) as int) == least(
                n as int,
                below(side, measured(words.take(start), bounds), v) as int,
            ),
    ensures
        ranks(side, most_extreme(side, reduced(words, bounds, n, shard_len, start, merged), n))
            == ranks(side, most_extreme(side, measured(words, bounds), n)),
    decreases words.len() - start,
{
    let before = measured(words.take(start), bounds);
    if start >= words.len() {
        assert(words.take(start) =~= words);
        let a = most_extreme(side, merged, n);
        let b = most_extreme(side, measured(words, bounds), n);
        assert forall|v: int| below(side, a, v) == below(side, b, v) by {
            lemma_below_most_extreme(side, merged, n, v);
            lemma_below_most_extreme(side, measured(words, bounds), n, v);
        }
        lemma_most_extreme_is_ranked(side, merged, n);
        lemma_most_extreme_is_ranked(side, measured(words, bounds), n);
        lemma_same_counts_same_ranks(side, a, b);
    } else {
        let end = if start + shard_len < words.len() {
            start + shard_len
        } else {
            words.len() as int
        };
        let shard = measured(words.subrange(start, end), bounds);
        let rest = measured(words.skip(end), bounds);
        let whole = measured(words, bounds);
        assert(words.take(end) =~= words.take(start) + words.subrange(start, end));
        assert(words =~= words.take(end) + words.skip(end));
        lemma_measured_concat(words.take(start), words.subrange(start, end), bounds);
        lemma_measured_concat(words.take(end), words.skip(end), bounds);
        assert(whole == (before + shard) + rest);
        lemma_no_repeats_part(whole, before.len() as int, (before.len() + shard.len()) as int);
        assert(whole.subrange(before.len() as int, (before.len() + shard.len()) as int) =~= shard);
        lemma_no_repeats_most_extreme(side, shard, n);
        assert forall|a: int, b: int| 0 <= a < merged.len() && 0 <= b < shard.len() implies
            !same_entry(merged[a], shard[b]) by {
            assert(occurs(before, merged[a]));
            let c = choose|c: int| 0 <= c < before.len() && same_entry(#[trigger] before[c], merged[a]);
            assert(whole[c] == before[c] && whole[before.len() + b] == shard[b]);
            assert(!same_entry(whole[c], whole[before.len() + b]));
        }
        lemma_nothing_held(merged, shard, n, n);
        lemma_unheld_keeps_all(kept_of(shard, n), held_of(merged, n));
        let merged2 = merged + kept_of(shard, n);
        assert(merged2 == merged + handed_over(merged, n, shard, n));
        assert forall|i: int| 0 <= i < merged2.len() implies occurs(
            before + shard,
            #[trigger] merged2[i],
        ) by {
            if i < merged.len() {
                assert(occurs(before, merged[i]));
                let c = choose|c: int|
                    0 <= c < before.len() && same_entry(#[trigger] before[c], merged[i]);
                assert(same_entry((before + shard)[c], merged2[i]));
            } else {
                lemma_kept_entry(shard, n, i - merged.len());
                let c = choose|c: int|
                    0 <= c < shard.len() && same_entry(
                        #[trigger] shard[c],
                        kept_of(shard, n)[i - merged.len()],
                    );
                assert(same_entry((before + shard)[before.len() + c], merged2[i]));
            }
        }
        assert forall|v: int|
            least(n as int, below(side, merged2, v) as int) == least(
                n as int,
                below(side, before + shard, v) as int,
            ) by {
            lemma_below_concat(side, merged, kept_of(shard, n), v);
            lemma_below_concat(side, before, shard, v);
            lemma_kept_counts(side, shard, n, v);
            assert(least(n as int, below(side, merged, v) as int) == least(
                n as int,
                below(side, before, v) as int,
            ));
        }
        lemma_sharded_from(side, words, bounds, n, shard_len, end, merged2);
    }
}

/// Sharing the work is as good as doing it in a row: when stretches of
/// `shard_len` words are collected one by one and the collectors are merged,
/// the result reaches, on each side, as far with each of its words as when
/// one collector takes all the words.
///
/// This holds where no word that can be measured stands among the words
/// twice with the same extent. Which of several equally extreme words are
/// kept may differ.
pub proof fn lemma_sharded_matches_sequential(
    side: Side,
    words: Seq<ShapedWord>,
    bounds: Map<u32, VerticalExtremes>,
    n: nat,
    shard_len: nat,
)
    requires
        shard_len >= 1,
        no_repeats(measured(words, bounds)),
    ensures
        ranks(
            side,
            most_extreme(side, reduced(words, bounds, n, shard_len, 0, Seq::empty()), n),
        ) == ranks(side, most_extreme(side, measured(words, bounds), n)),
{
    assert(words.take(0) =~= Seq::<ShapedWord>::empty());
    lemma_sharded_from(side, words, bounds, n, shard_len, 0, Seq::<WordExtremes>::empty());
}

} // verus!
