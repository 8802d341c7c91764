//! The order in which exemplars are kept, and what "the most extreme `n`"
//! means.

use vstd::prelude::*;
use crate::extremes::WordExtremes;

verus! {

/// Which bound a list of exemplars is ordered by.
#[derive(Debug, Clone, Copy, PartialEq, Eq, Structural)]
pub enum Side {
    /// Lowest reaching first.
    Lowest,
    /// Highest reaching first.
    Highest,
}

/// The number by which `w` is ordered on `side`: smaller is more extreme.
pub open spec fn rank(side: Side, w: WordExtremes) -> int {
    match side {
        Side::Lowest => w.extremes.lowest as int,
        Side::Highest => -(w.extremes.highest as int),
    }
}

/// Whether `s` has its most extreme entry first and its least extreme last.
pub open spec fn is_ranked(side: Side, s: Seq<WordExtremes>) -> bool {
    forall|i: int, j: int| 0 <= i <= j < s.len() ==> rank(side, s[i]) <= rank(side, s[j])
}

/// `s` with `x` put behind every entry that is at least as extreme as `x`.
pub open spec fn insert_ranked(side: Side, s: Seq<WordExtremes>, x: WordExtremes) -> Seq<
    WordExtremes,
>
    decreases s.len(),
{
    if s.len() > 0 && rank(side, x) < rank(side, s.last()) {
        insert_ranked(side, s.drop_last(), x).push(s.last())
    } else {
        s.push(x)
    }
}

/// `items` from most to least extreme; entries that are equally extreme stay
/// in the order in which they came.
pub open spec fn ranked(side: Side, items: Seq<WordExtremes>) -> Seq<WordExtremes>
    decreases items.len(),
{
    if items.len() == 0 {
        Seq::empty()
    } else {
        insert_ranked(side, ranked(side, items.drop_last()), items.last())
    }
}

/// The first `n` entries of `s`, or all of `s` where it has no more.
pub open spec fn at_most(s: Seq<WordExtremes>, n: nat) -> Seq<WordExtremes> {
    if s.len() <= n {
        s
    } else {
        s.take(n as int)
    }
}

/// The `n` most extreme of `items` on `side`, most extreme first; all of them
/// where there are no more than `n`. Of equally extreme items the earlier
/// ones are kept.
pub open spec fn most_extreme(side: Side, items: Seq<WordExtremes>, n: nat) -> Seq<WordExtremes> {
    at_most(ranked(side, items), n)
}

/// The items that are not among the `n` most extreme, in ranked order.
pub open spec fn left_out(side: Side, items: Seq<WordExtremes>, n: nat) -> Seq<WordExtremes> {
    ranked(side, items).skip(most_extreme(side, items, n).len() as int)
}

/// The ranks of the entries of `s`, in order.
pub open spec fn ranks(side: Side, s: Seq<WordExtremes>) -> Seq<int> {
    Seq::new(s.len(), |i: int| rank(side, s[i]))
}

/// Putting an entry into a list adds one entry and nothing else.
pub proof fn lemma_insert_ranked_permutes(side: Side, s: Seq<WordExtremes>, x: WordExtremes)
    ensures
        insert_ranked(side, s, x).len() == s.len() + 1,
        insert_ranked(side, s, x).to_multiset() == s.to_multiset().insert(x),
    decreases s.len(),
{
    broadcast use vstd::seq_lib::group_to_multiset_ensures;

    if s.len() > 0 && rank(side, x) < rank(side, s.last()) {
        let front = s.drop_last();
        lemma_insert_ranked_permutes(side, front, x);
        assert(s == front.push(s.last()));
        assert(insert_ranked(side, s, x).to_multiset() =~= s.to_multiset().insert(x));
    }
}

/// Where `x` comes to stand: behind the entries before `p`, which are all at
/// least as extreme, and before the others, which are all less extreme.
pub proof fn lemma_insert_ranked_at(side: Side, s: Seq<WordExtremes>, x: WordExtremes, p: int)
    requires
        0 <= p <= s.len(),
        forall|j: int| p <= j < s.len() ==> rank(side, x) < rank(side, s[j]),
        p > 0 ==> rank(side, s[p - 1]) <= rank(side, x),
    ensures
        insert_ranked(side, s, x) == s.insert(p, x),
    decreases s.len(),
{
    if p == s.len() {
        assert(s.insert(p, x) =~= s.push(x));
    } else {
        let front = s.drop_last();
        lemma_insert_ranked_at(side, front, x, p);
        assert(front.insert(p, x).push(s.last()) =~= s.insert(p, x));
    }
}

/// Putting an entry into a ranked list leaves it ranked.
pub proof fn lemma_insert_ranked_keeps_order(side: Side, s: Seq<WordExtremes>, x: WordExtremes)
    requires
        is_ranked(side, s),
    ensures
        is_ranked(side, insert_ranked(side, s, x)),
    decreases s.len(),
{
    if s.len() > 0 && rank(side, x) < rank(side, s.last()) {
        let front = s.drop_last();
        assert(is_ranked(side, front)) by {
            assert forall|i: int, j: int| 0 <= i <= j < front.len() implies rank(side, front[i])
                <= rank(side, front[j]) by {
                assert(front[i] == s[i] && front[j] == s[j]);
            }
        }
        lemma_insert_ranked_keeps_order(side, front, x);
        lemma_insert_ranked_permutes(side, front, x);
        let mid = insert_ranked(side, front, x);
        let out = mid.push(s.last());
        assert forall|i: int, j: int| 0 <= i <= j < out.len() implies rank(side, out[i]) <= rank(
            side,
            out[j],
        ) by {
            if j == out.len() - 1 && i < j {
                lemma_entry_of_insert(side, front, x, i);
                if mid[i] != x {
                    let k = choose|k: int| 0 <= k < front.len() && front[k] == mid[i];
                    assert(front[k] == s[k]);
                }
            }
        }
    } else {
        let out = s.push(x);
        assert forall|i: int, j: int| 0 <= i <= j < out.len() implies rank(side, out[i]) <= rank(
            side,
            out[j],
        ) by {
            if j == out.len() - 1 && i < j {
                assert(out[i] == s[i]);
                assert(rank(side, s[i]) <= rank(side, s.last()));
            }
        }
    }
}

/// Every entry of a list after an insertion is the new entry or one of the
/// old ones.
pub proof fn lemma_entry_of_insert(side: Side, s: Seq<WordExtremes>, x: WordExtremes, i: int)
    requires
        0 <= i < insert_ranked(side, s, x).len(),
    ensures
        insert_ranked(side, s, x)[i] == x || exists|k: int|
            0 <= k < s.len() && s[k] == insert_ranked(side, s, x)[i],
    decreases s.len(),
{
    if s.len() > 0 && rank(side, x) < rank(side, s.last()) {
        let front = s.drop_last();
        lemma_insert_ranked_permutes(side, front, x);
        if i < front.len() + 1 {
            lemma_entry_of_insert(side, front, x, i);
            let e = insert_ranked(side, front, x)[i];
            if e != x {
                let k = choose|k: int| 0 <= k < front.len() && front[k] == e;
                assert(s[k] == e);
            }
        } else {
            assert(s[s.len() - 1] == insert_ranked(side, s, x)[i]);
        }
    } else {
        if i < s.len() {
            assert(s[i] == insert_ranked(side, s, x)[i]);
        }
    }
}

/// Ranking keeps every item, as often as it occurs, and adds none.
pub proof fn lemma_ranked_permutes(side: Side, items: Seq<WordExtremes>)
    ensures
        ranked(side, items).len() == items.len(),
        ranked(side, items).to_multiset() == items.to_multiset(),
    decreases items.len(),
{
    broadcast use vstd::seq_lib::group_to_multiset_ensures;

    if items.len() > 0 {
        let front = items.drop_last();
        lemma_ranked_permutes(side, front);
        lemma_insert_ranked_permutes(side, ranked(side, front), items.last());
        assert(items == front.push(items.last()));
    }
}

/// Ranking puts the most extreme item first and the least extreme last.
pub proof fn lemma_ranked_is_ranked(side: Side, items: Seq<WordExtremes>)
    ensures
        is_ranked(side, ranked(side, items)),
    decreases items.len(),
{
    if items.len() > 0 {
        lemma_ranked_is_ranked(side, items.drop_last());
        lemma_insert_ranked_keeps_order(side, ranked(side, items.drop_last()), items.last());
    }
}

/// The most extreme `n` are truly that: there are `n` of them, or all the
/// items where there are fewer; they stand most extreme first; together with
/// the items left out they are the items, each as often as it occurs; and no
/// item left out is more extreme than one that was kept.
pub proof fn lemma_most_extreme_is_top_n(side: Side, items: Seq<WordExtremes>, n: nat)
    ensures
        most_extreme(side, items, n).len() == if items.len() <= n {
            items.len()
        } else {
            n
        },
        is_ranked(side, most_extreme(side, items, n)),
        (most_extreme(side, items, n) + left_out(side, items, n)).to_multiset()
            == items.to_multiset(),
        forall|i: int, j: int|
            0 <= i < most_extreme(side, items, n).len() && 0 <= j < left_out(side, items, n).len()
                ==> rank(side, most_extreme(side, items, n)[i]) <= rank(
                side,
                left_out(side, items, n)[j],
            ),
{
    let all = ranked(side, items);
    let top = most_extreme(side, items, n);
    let rest = left_out(side, items, n);
    lemma_ranked_permutes(side, items);
    lemma_ranked_is_ranked(side, items);
    assert(top + rest =~= all);
    assert forall|i: int, j: int| 0 <= i <= j < top.len() implies rank(side, top[i]) <= rank(
        side,
        top[j],
    ) by {
        assert(top[i] == all[i] && top[j] == all[j]);
    }
    assert forall|i: int, j: int| 0 <= i < top.len() && 0 <= j < rest.len() implies rank(
        side,
        top[i],
    ) <= rank(side, rest[j]) by {
        assert(top[i] == all[i] && rest[j] == all[top.len() + j]);
    }
}

/// A list that was cut to `n` entries takes a new entry as the uncut list
/// would have: what lay behind the cut never comes back.
pub proof fn lemma_cut_then_insert(side: Side, t: Seq<WordExtremes>, x: WordExtremes, n: nat)
    requires
        is_ranked(side, t),
    ensures
        at_most(insert_ranked(side, at_most(t, n), x), n) == at_most(insert_ranked(side, t, x), n),
    decreases t.len(),
{
    if t.len() > n {
        let front = t.drop_last();
        let cut = at_most(t, n);
        assert(cut =~= at_most(front, n));
        assert(is_ranked(side, front)) by {
            assert forall|i: int, j: int| 0 <= i <= j < front.len() implies rank(side, front[i])
                <= rank(side, front[j]) by {
                assert(front[i] == t[i] && front[j] == t[j]);
            }
        }
        lemma_insert_ranked_permutes(side, front, x);
        lemma_insert_ranked_permutes(side, cut, x);
        if rank(side, x) < rank(side, t.last()) {
            lemma_cut_then_insert(side, front, x, n);
            let mid = insert_ranked(side, front, x);
            assert(at_most(mid.push(t.last()), n) =~= at_most(mid, n));
        } else {
            if n > 0 {
                assert(cut.last() == t[n as int - 1]);
                assert(rank(side, cut.last()) <= rank(side, t.last()));
            }
            assert(insert_ranked(side, cut, x) == cut.push(x));
            assert(at_most(cut.push(x), n) =~= cut);
            assert(at_most(t.push(x), n) =~= cut);
        }
    }
}

} // verus!
