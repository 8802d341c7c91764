//! The locations of a design space that are worth testing.

use vstd::prelude::*;
use itertools::Itertools;
use crate::locations::{sorted_by_tag, with_axes, Location};

verus! {

/// A variation axis of a font: its tag, as a number with the first byte
/// highest, and the least, the default and the greatest coordinate on it.
#[derive(Debug, Clone, Copy, PartialEq, Eq, Structural)]
pub struct Axis {
    pub tag: u32,
    pub min_value: i32,
    pub default_value: i32,
    pub max_value: i32,
}

/// Whether each entry of `s` is greater than the one before it.
pub open spec fn ascending(s: Seq<i32>) -> bool {
    forall|i: int, j: int| 0 <= i < j < s.len() ==> s[i] < s[j]
}

/// `s` with `x` in its place, unless `x` stands there already.
pub open spec fn insert_coord(s: Seq<i32>, x: i32) -> Seq<i32>
    decreases s.len(),
{
    if s.len() > 0 && x < s.last() {
        insert_coord(s.drop_last(), x).push(s.last())
    } else if s.len() > 0 && x == s.last() {
        s
    } else {
        s.push(x)
    }
}

/// The coordinates that the first `n` of `instances` have on axis number
/// `a`, in ascending order, each once.
pub open spec fn instance_coords(instances: Seq<Vec<i32>>, a: int, n: int) -> Seq<i32>
    decreases n,
{
    if n <= 0 {
        Seq::empty()
    } else if 0 <= a < instances[n - 1]@.len() {
        insert_coord(instance_coords(instances, a, n - 1), instances[n - 1]@[a])
    } else {
        instance_coords(instances, a, n - 1)
    }
}

/// The coordinates to test on axis number `a`: those of the named
/// instances, and the axis's default, least and greatest; in ascending
/// order, each once.
pub open spec fn axis_coords(axis: Axis, instances: Seq<Vec<i32>>, a: int) -> Seq<i32> {
    insert_coord(
        insert_coord(
            insert_coord(instance_coords(instances, a, instances.len() as int), axis.default_value),
            axis.min_value,
        ),
        axis.max_value,
    )
}

/// The coordinates to test on each axis.
pub open spec fn coordinate_sets(axes: Seq<Axis>, instances: Seq<Vec<i32>>) -> Seq<Seq<i32>> {
    Seq::new(axes.len(), |a: int| axis_coords(axes[a], instances, a))
}

/// `head` continued by each of `last` in turn.
pub open spec fn continued(head: Seq<i32>, last: Seq<i32>) -> Seq<Seq<i32>> {
    Seq::new(last.len(), |j: int| head.push(last[j]))
}

/// Each of `heads`, in turn, continued by each of `last`.
pub open spec fn all_continued(heads: Seq<Seq<i32>>, last: Seq<i32>) -> Seq<Seq<i32>>
    decreases heads.len(),
{
    if heads.len() == 0 {
        Seq::empty()
    } else {
        all_continued(heads.drop_last(), last) + continued(heads.last(), last)
    }
}

/// Every way to pick one entry from each of `sets`, the picks from the last
/// set changing fastest. Of no sets there is one pick, the empty one.
pub open spec fn product(sets: Seq<Seq<i32>>) -> Seq<Seq<i32>>
    decreases sets.len(),
{
    if sets.len() == 0 {
        seq![Seq::empty()]
    } else {
        all_continued(product(sets.drop_last()), sets.last())
    }
}

/// What each of the vectors holds.
pub open spec fn rows(v: Seq<Vec<i32>>) -> Seq<Seq<i32>> {
    Seq::new(v.len(), |i: int| v[i]@)
}

/// The tags of `axes` paired with `coords`, place by place.
pub open spec fn paired(axes: Seq<Axis>, coords: Seq<i32>) -> Seq<(u32, i32)> {
    Seq::new(axes.len(), |i: int| (axes[i].tag, coords[i]))
}

/// The location that sets the axes to `coords`, in the order of the tags.
pub open spec fn location_at(axes: Seq<Axis>, coords: Seq<i32>) -> Seq<(u32, i32)> {
    sorted_by_tag(with_axes(Seq::empty(), paired(axes, coords), axes.len() as int))
}

/// Every pick of `all_continued` is one entry longer than its head.
pub proof fn lemma_all_continued_len(heads: Seq<Seq<i32>>, last: Seq<i32>, n: nat)
    requires
        forall|k: int| 0 <= k < heads.len() ==> (#[trigger] heads[k]).len() == n,
    ensures
        forall|k: int|
            0 <= k < all_continued(heads, last).len() ==> (#[trigger] all_continued(
                heads,
                last,
            )[k]).len() == n + 1,
    decreases heads.len(),
{
    if heads.len() > 0 {
        lemma_all_continued_len(heads.drop_last(), last, n);
        let before = all_continued(heads.drop_last(), last);
        let tail = continued(heads.last(), last);
        assert(heads.last().len() == n);
        assert forall|k: int| 0 <= k < all_continued(heads, last).len() implies (
        #[trigger] all_continued(heads, last)[k]).len() == n + 1 by {
            if k < before.len() {
                assert(all_continued(heads, last)[k] == before[k]);
            } else {
                assert(all_continued(heads, last)[k] == tail[k - before.len()]);
            }
        }
    }
}

/// Every pick from `sets` holds one entry for each set.
pub proof fn lemma_product_rows(sets: Seq<Seq<i32>>)
    ensures
        forall|k: int|
            0 <= k < product(sets).len() ==> (#[trigger] product(sets)[k]).len() == sets.len(),
    decreases sets.len(),
{
    if sets.len() > 0 {
        lemma_product_rows(sets.drop_last());
        lemma_all_continued_len(product(sets.drop_last()), sets.last(), (sets.len() - 1) as nat);
    }
}

/// Where `x` comes to stand in `s`, or that it stands there already.
pub proof fn lemma_insert_coord_at(s: Seq<i32>, x: i32, p: int)
    requires
        0 <= p <= s.len(),
        forall|j: int| p <= j < s.len() ==> x < s[j],
        p > 0 ==> s[p - 1] <= x,
    ensures
        insert_coord(s, x) == if p > 0 && s[p - 1] == x {
            s
        } else {
            s.insert(p, x)
        },
    decreases s.len(),
{
    if p == s.len() {
        assert(s.insert(p, x) =~= s.push(x));
    } else {
        let front = s.drop_last();
        lemma_insert_coord_at(front, x, p);
        if p > 0 && s[p - 1] == x {
            assert(front.push(s.last()) =~= s);
        } else {
            assert(front.insert(p, x).push(s.last()) =~= s.insert(p, x));
        }
    }
}

/// Every entry of a list after a coordinate was put in is that coordinate
/// or one of the old entries.
pub proof fn lemma_entry_of_insert_coord(s: Seq<i32>, x: i32, i: int)
    requires
        0 <= i < insert_coord(s, x).len(),
    ensures
        insert_coord(s, x)[i] == x || exists|k: int|
            0 <= k < s.len() && s[k] == insert_coord(s, x)[i],
    decreases s.len(),
{
    if s.len() > 0 && x < s.last() {
        let front = s.drop_last();
        let mid = insert_coord(front, x);
        if i < mid.len() {
            lemma_entry_of_insert_coord(front, x, i);
            if mid[i] != x {
                let k = choose|k: int| 0 <= k < front.len() && front[k] == mid[i];
                assert(s[k] == mid[i]);
            }
        } else {
            assert(s[s.len() - 1] == insert_coord(s, x)[i]);
        }
    } else if s.len() > 0 && x == s.last() {
        assert(s[i] == insert_coord(s, x)[i]);
    } else {
        if i < s.len() {
            assert(s[i] == insert_coord(s, x)[i]);
        }
    }
}

/// An ascending list stays ascending when a coordinate is put in.
pub proof fn lemma_insert_coord_ascending(s: Seq<i32>, x: i32)
    requires
        ascending(s),
    ensures
        ascending(insert_coord(s, x)),
    decreases s.len(),
{
    let out = insert_coord(s, x);
    if s.len() > 0 && x < s.last() {
        let front = s.drop_last();
        assert(ascending(front)) by {
            assert forall|i: int, j: int| 0 <= i < j < front.len() implies front[i] < front[j] by {
                assert(front[i] == s[i] && front[j] == s[j]);
            }
        }
        lemma_insert_coord_ascending(front, x);
        let mid = insert_coord(front, x);
        assert forall|i: int, j: int| 0 <= i < j < out.len() implies out[i] < out[j] by {
            if j == out.len() - 1 {
                assert(mid[i] == out[i]);
                lemma_entry_of_insert_coord(front, x, i);
                if out[i] != x {
                    let m = choose|m: int| 0 <= m < front.len() && front[m] == mid[i];
                    assert(s[m] < s[s.len() - 1]);
                }
            } else {
                assert(mid[i] == out[i] && mid[j] == out[j]);
            }
        }
    } else if s.len() > 0 && x == s.last() {
    } else {
        assert forall|i: int, j: int| 0 <= i < j < out.len() implies out[i] < out[j] by {
            if j == out.len() - 1 {
                assert(out[i] == s[i]);
                if i < s.len() - 1 {
                    assert(s[i] < s[s.len() - 1]);
                }
            } else {
                assert(out[i] == s[i] && out[j] == s[j]);
            }
        }
    }
}

/// The coordinates to test on an axis stand in ascending order, each once.
pub proof fn lemma_axis_coords_ascending(axis: Axis, instances: Seq<Vec<i32>>, a: int)
    ensures
        ascending(axis_coords(axis, instances, a)),
{
    lemma_instance_coords_ascending(instances, a, instances.len() as int);
    let seen = instance_coords(instances, a, instances.len() as int);
    lemma_insert_coord_ascending(seen, axis.default_value);
    lemma_insert_coord_ascending(insert_coord(seen, axis.default_value), axis.min_value);
    lemma_insert_coord_ascending(
        insert_coord(insert_coord(seen, axis.default_value), axis.min_value),
        axis.max_value,
    );
}

/// The coordinates of the named instances on an axis stand in ascending
/// order, each once.
pub proof fn lemma_instance_coords_ascending(instances: Seq<Vec<i32>>, a: int, n: int)
    ensures
        ascending(instance_coords(instances, a, n)),
    decreases n,
{
    if n > 0 {
        lemma_instance_coords_ascending(instances, a, n - 1);
        if 0 <= a < instances[n - 1]@.len() {
            lemma_insert_coord_ascending(
                instance_coords(instances, a, n - 1),
                instances[n - 1]@[a],
            );
        }
    }
}

/// Puts `x` in its place in `coords`, unless it stands there already.
fn add_coord(coords: &mut Vec<i32>, x: i32)
    ensures
        final(coords)@ == insert_coord(old(coords)@, x),
{
    let len: usize = coords.len();
    let mut p: usize = len;
    let mut searching: bool = true;
    while searching
        invariant
            p <= len,
            len == coords@.len(),
            coords@ == old(coords)@,
            forall|j: int| p <= j < len ==> x < coords@[j],
            !searching ==> (p > 0 ==> coords@[p - 1] <= x),
        decreases p + (if searching { 1int } else { 0int }),
    {
        if p > 0 && x < coords[p - 1] {
            p = p - 1;
        } else {
            searching = false;
        }
    }
    proof {
        lemma_insert_coord_at(coords@, x, p as int);
    }
    if p > 0 && coords[p - 1] == x {
    } else {
        coords.insert(p, x);
    }
}

/// Every pick of one entry from each set, with
/// `Itertools::multi_cartesian_product`.
///
/// Trusted: the picks come in the order in which the last set changes
/// fastest, each holding one entry per set in the order of the sets; of no
/// sets there is the one empty pick.
#[verifier::external_body]
fn multi_cartesian_product(sets: &Vec<Vec<i32>>) -> (r: Vec<Vec<i32>>)
    ensures
        rows(r@) == product(rows(sets@)),
{
    sets.iter().map(|set| set.iter().copied()).multi_cartesian_product().collect()
}

/// The coordinates to test on axis number `a`.
fn coords_of_axis(axis: &Axis, instances: &Vec<Vec<i32>>, a: usize) -> (r: Vec<i32>)
    ensures
        r@ == axis_coords(*axis, instances@, a as int),
{
    let mut coords: Vec<i32> = Vec::new();
    let mut i: usize = 0;
    while i < instances.len()
        invariant
            i <= instances.len(),
            coords@ == instance_coords(instances@, a as int, i as int),
        decreases instances.len() - i,
    {
        if a < instances[i].len() {
            add_coord(&mut coords, instances[i][a]);
        }
        i = i + 1;
    }
    add_coord(&mut coords, axis.default_value);
    add_coord(&mut coords, axis.min_value);
    add_coord(&mut coords, axis.max_value);
    coords
}

/// Every combination of the coordinates seen on each axis: on each axis its
/// default, least and greatest coordinate and those of the named
/// `instances`, each of which holds one coordinate per axis.
///
/// The number of locations is the product of the numbers of coordinates per
/// axis, so it grows fast with the number of axes. The order is fixed by the
/// axes and instances: coordinates ascend, those of the last axis changing
/// fastest. A font without axes has the one location that sets nothing.
pub fn interesting_locations(axes: &Vec<Axis>, instances: &Vec<Vec<i32>>) -> (r: Vec<Location>)
    ensures
        r@.len() == product(coordinate_sets(axes@, instances@)).len(),
        forall|k: int|
            0 <= k < r@.len() ==> (#[trigger] r@[k]).entries() == location_at(
                axes@,
                product(coordinate_sets(axes@, instances@))[k],
            ) && r@[k].wf(),
{
    let mut sets: Vec<Vec<i32>> = Vec::new();
    let mut a: usize = 0;
    while a < axes.len()
        invariant
            a <= axes.len(),
            sets@.len() == a,
            rows(sets@) == coordinate_sets(axes@, instances@).take(a as int),
        decreases axes.len() - a,
    {
        let coords = coords_of_axis(&axes[a], instances, a);
        let ghost before = sets@;
        sets.push(coords);
        assert forall|i: int| 0 <= i <= a implies rows(sets@)[i] == coordinate_sets(
            axes@,
            instances@,
        ).take(a + 1)[i] by {
            if i < a {
                assert(rows(before)[i] == coordinate_sets(axes@, instances@).take(a as int)[i]);
                assert(sets@[i] == before[i]);
            }
        }
        assert(rows(sets@) =~= coordinate_sets(axes@, instances@).take(a + 1));
        a = a + 1;
    }
    assert(coordinate_sets(axes@, instances@).take(axes.len() as int) =~= coordinate_sets(
        axes@,
        instances@,
    ));
    let picks = multi_cartesian_product(&sets);
    let ghost all = product(coordinate_sets(axes@, instances@));
    proof {
        lemma_product_rows(coordinate_sets(axes@, instances@));
        assert(rows(picks@).len() == picks@.len());
    }
    let mut out: Vec<Location> = Vec::new();
    let mut k: usize = 0;
    while k < picks.len()
        invariant
            k <= picks.len(),
            rows(picks@) == all,
            picks@.len() == all.len(),
            forall|m: int| 0 <= m < all.len() ==> (#[trigger] all[m]).len() == axes@.len(),
            out@.len() == k,
            forall|m: int|
                0 <= m < k ==> (#[trigger] out@[m]).entries() == location_at(axes@, all[m])
                    && out@[m].wf(),
        decreases picks.len() - k,
    {
        let pick = &picks[k];
        assert(pick@ == rows(picks@)[k as int]);
        assert(all[k as int].len() == axes@.len());
        let mut pairs: Vec<(u32, i32)> = Vec::new();
        let mut i: usize = 0;
        while i < axes.len()
            invariant
                i <= axes.len(),
                pick@.len() == axes@.len(),
                pairs@ == paired(axes@, pick@).take(i as int),
            decreases axes.len() - i,
        {
            pairs.push((axes[i].tag, pick[i]));
            assert(pairs@ =~= paired(axes@, pick@).take(i + 1));
            i = i + 1;
        }
        assert(paired(axes@, pick@).take(axes.len() as int) =~= paired(axes@, pick@));
        let mut location = Location::from_skrifa(&pairs);
        location.sort_axes();
        out.push(location);
        k = k + 1;
    }
    out
}

} // verus!
