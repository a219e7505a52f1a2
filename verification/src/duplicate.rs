//! Copies of values that keep their contents, and reordering by moving.

use vstd::prelude::*;

verus! {

/// Values that can be copied so that the copy has the same contents.
pub trait Duplicate: DeepView + Sized {
    fn duplicate(&self) -> (r: Self)
        ensures
            r.deep_view() == self.deep_view(),
    ;
}

impl Duplicate for String {
    fn duplicate(&self) -> (r: Self) {
        self.clone()
    }
}

impl Duplicate for bool {
    fn duplicate(&self) -> (r: Self) {
        *self
    }
}

impl<T: Duplicate> Duplicate for Option<T> {
    fn duplicate(&self) -> (r: Self) {
        match self {
            Some(v) => Some(v.duplicate()),
            None => None,
        }
    }
}

impl<T: Duplicate> Duplicate for Vec<T> {
    fn duplicate(&self) -> (r: Self) {
        let mut r: Vec<T> = Vec::new();
        let mut i: usize = 0;
        while i < self.len()
            invariant
                i <= self.len(),
                r@.len() == i,
                forall|k: int| 0 <= k < i ==> #[trigger] r@[k].deep_view() == self@[k].deep_view(),
            decreases self.len() - i,
        {
            r.push(self[i].duplicate());
            i += 1;
        }
        assert(r.deep_view() =~= self.deep_view());
        r
    }
}

/// The items moved into the order given by `positions`, a permutation of
/// their indices.
pub fn permute<T>(items: Vec<T>, positions: &Vec<usize>) -> (r: Vec<T>)
    requires
        positions@.len() == items@.len(),
        forall|k: int| 0 <= k < positions@.len() ==> #[trigger] positions@[k] < items@.len(),
        forall|a: int, b: int| 0 <= a < b < positions@.len() ==> positions@[a] != positions@[b],
    ensures
        r@.len() == positions@.len(),
        forall|k: int| 0 <= k < r@.len() ==> #[trigger] r@[k] == items@[positions@[k] as int],
{
    let ghost given = items@;
    let mut slots: Vec<Option<T>> = Vec::new();
    for item in it: items
        invariant
            it.seq() == given,
            slots@.len() == it.index(),
            forall|j: int| 0 <= j < slots@.len() ==> #[trigger] slots@[j] == Some(given[j]),
    {
        slots.push(Some(item));
    }
    let mut r: Vec<T> = Vec::new();
    let mut k: usize = 0;
    while k < positions.len()
        invariant
            positions@.len() == given.len(),
            slots@.len() == given.len(),
            forall|q: int| 0 <= q < positions@.len() ==> #[trigger] positions@[q] < given.len(),
            forall|a: int, b: int| 0 <= a < b < positions@.len() ==> positions@[a] != positions@[b],
            k <= positions@.len(),
            r@.len() == k,
            forall|q: int| 0 <= q < k ==> #[trigger] r@[q] == given[positions@[q] as int],
            forall|q: int| k <= q < positions@.len() ==> #[trigger] slots@[positions@[q] as int] == Some(given[positions@[q] as int]),
        decreases positions.len() - k,
    {
        let mut taken: Option<T> = None;
        slots.set_and_swap(positions[k], &mut taken);
        assert(taken == Some(given[positions@[k as int] as int]));
        r.push(taken.unwrap());
        k += 1;
    }
    r
}

} // verus!
