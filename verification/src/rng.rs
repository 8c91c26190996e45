//! Lazily evaluated random permutation.
//!
//! The permutation logic is a pure state machine: the caller hands each
//! step the random index it drew, and the step answers with the next
//! element of the permutation.

use vstd::prelude::*;

verus! {

/// Lazily evaluated random permutation of `0..n`.
///
/// Walks a virtual array that starts as the identity on `0..n`,
/// swap-and-shrink style: each step exchanges a drawn slot with the last
/// live slot and emits what the drawn slot held.
pub struct RandomPermutation {
    /// Number of elements not yet emitted.
    pub remain: usize,
    /// Sparse overlay over the identity: `shuffle[i]` of `Some(v)` means
    /// slot `i` currently holds `v`.
    pub shuffle: Vec<Option<usize>>,
}

impl RandomPermutation {
    /// What slot `i` of the virtual array currently holds.
    pub open spec fn slot(self, i: int) -> usize {
        match self.shuffle@[i] {
            Some(v) => v,
            None => i as usize,
        }
    }

    /// The overlay covers every live slot.
    pub open spec fn wf(self) -> bool {
        self.remain <= self.shuffle@.len()
    }

    /// A fresh permutation of `0..n`; nothing is emitted yet.
    pub fn new(n: usize) -> (p: RandomPermutation)
        ensures
            p.wf(),
            p.remain == n,
            p.shuffle@.len() == n,
            forall|i: int| 0 <= i < n ==> p.slot(i) == i,
    {
        let mut shuffle: Vec<Option<usize>> = Vec::new();
        while shuffle.len() < n
            invariant
                shuffle@.len() <= n,
                forall|i: int| 0 <= i < shuffle@.len() ==> shuffle@[i] is None,
            decreases n - shuffle@.len(),
        {
            shuffle.push(None);
        }
        RandomPermutation { remain: n, shuffle }
    }

    /// Emit the next element of the permutation, given the random slot
    /// `swap_idx` the caller drew from `0..remain`; `None` once the
    /// permutation is exhausted.
    ///
    /// The drawn slot's value is emitted, the last live slot's value
    /// moves into the drawn slot, and the live range shrinks by one.
    pub fn next(&mut self, swap_idx: usize) -> (r: Option<usize>)
        requires
            old(self).wf(),
            old(self).remain > 0 ==> swap_idx < old(self).remain,
        ensures
            final(self).wf(),
            old(self).remain == 0 ==> r is None && *final(self) == *old(self),
            old(self).remain > 0 ==> {
                &&& r == Some(old(self).slot(swap_idx as int))
                &&& final(self).remain == old(self).remain - 1
                &&& final(self).shuffle@ == old(self).shuffle@.update(
                    swap_idx as int,
                    Some(old(self).slot(old(self).remain - 1)),
                )
            },
    {
        if self.remain == 0 {
            return None;
        }
        self.remain = self.remain - 1;
        let head = match self.shuffle[self.remain] {
            Some(v) => v,
            None => self.remain,
        };
        let drawn = match self.shuffle[swap_idx] {
            Some(v) => v,
            None => swap_idx,
        };
        self.shuffle.set(swap_idx, Some(head));
        Some(drawn)
    }
}

} // verus!
