//! The order of locations that set the same axes.

use vstd::prelude::*;
use core::cmp::Ordering;
use crate::locations::{place, Location};

verus! {

/// Whether two lists of axes name the same axes in the same order.
pub open spec fn same_axes(a: Seq<(u32, i32)>, b: Seq<(u32, i32)>) -> bool {
    a.len() == b.len() && forall|i: int| 0 <= i < a.len() ==> a[i].0 == b[i].0
}

/// How the coordinates of two equally long lists of axes compare from place
/// `i` on: by the first that differs.
pub open spec fn order_from(a: Seq<(u32, i32)>, b: Seq<(u32, i32)>, i: int) -> Ordering
    decreases a.len() - i,
{
    if i < 0 || i >= a.len() || i >= b.len() {
        Ordering::Equal
    } else if a[i].1 < b[i].1 {
        Ordering::Less
    } else if a[i].1 > b[i].1 {
        Ordering::Greater
    } else {
        order_from(a, b, i + 1)
    }
}

/// How two lists of axes compare: not at all unless they name the same axes
/// in the same order; else by their coordinates, the first axis counting
/// most.
pub open spec fn order_of(a: Seq<(u32, i32)>, b: Seq<(u32, i32)>) -> Option<Ordering> {
    if same_axes(a, b) {
        Some(order_from(a, b, 0))
    } else {
        None
    }
}

impl Location {
    /// Compares two locations that set the same axes in the same order, by
    /// their coordinates, the first axis counting most. Locations that do
    /// not, have no order, whatever their coordinates.
    pub fn partial_cmp(&self, other: &Location) -> (r: Option<Ordering>)
        ensures
            r == order_of(self.entries(), other.entries()),
    {
        let n = self.len();
        if n != other.len() {
            return None;
        }
        let mut t: usize = 0;
        while t < n
            invariant
                t <= n,
                n == self.entries().len(),
                n == other.entries().len(),
                forall|k: int| 0 <= k < place(t) ==> self.entries()[k].0 == other.entries()[k].0,
            decreases n - t,
        {
            match (self.get_index(t), other.get_index(t)) {
                (Some(l), Some(r)) => {
                    if l.0 != r.0 {
                        assert(self.entries()[place(t)].0 != other.entries()[place(t)].0);
                        return None;
                    }
                },
                _ => {},
            }
            t = t + 1;
        }
        assert(same_axes(self.entries(), other.entries()));
        let mut i: usize = 0;
        while i < n
            invariant
                i <= n,
                n == self.entries().len(),
                n == other.entries().len(),
                same_axes(self.entries(), other.entries()),
                order_from(self.entries(), other.entries(), 0) == order_from(
                    self.entries(),
                    other.entries(),
                    place(i),
                ),
            decreases n - i,
        {
            match (self.get_index(i), other.get_index(i)) {
                (Some(l), Some(r)) => {
                    if l.1 < r.1 {
                        return Some(Ordering::Less);
                    }
                    if l.1 > r.1 {
                        return Some(Ordering::Greater);
                    }
                },
                _ => {},
            }
            i = i + 1;
        }
        Some(Ordering::Equal)
    }
}

} // verus!
