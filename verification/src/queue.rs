//! A minimum-priority queue of `(key, cell)` entries for the marching
//! solver. Entries with equal keys leave in an unspecified order, which is
//! all the solver relies on.

use vstd::prelude::*;

verus! {

/// A bag of `(key, cell)` entries; `pop_min` removes one entry whose key is
/// minimal. Backed by an unordered vector: pushes are constant time, pops
/// scan for the minimum.
pub struct MinQueue {
    pub items: Vec<(u64, usize)>,
}

impl MinQueue {
    pub fn new() -> (r: MinQueue)
        ensures
            r.items@ == Seq::<(u64, usize)>::empty(),
    {
        MinQueue { items: Vec::new() }
    }

    pub fn len(&self) -> (r: usize)
        ensures
            r == self.items@.len(),
    {
        self.items.len()
    }

    pub fn push(&mut self, key: u64, cell: usize)
        ensures
            final(self).items@ == old(self).items@.push((key, cell)),
    {
        self.items.push((key, cell));
    }

    /// Remove and return an entry with the smallest key; `None` on an empty
    /// queue. The survivors are exactly the other entries: the removed slot
    /// is filled with the last entry and the vector shortened by one.
    pub fn pop_min(&mut self) -> (r: Option<(u64, usize)>)
        ensures
            match r {
                None => old(self).items@.len() == 0 && final(self).items@ == old(self).items@,
                Some(p) => {
                    &&& old(self).items@.len() > 0
                    &&& final(self).items@.len() == old(self).items@.len() - 1
                    &&& exists|i: int|
                        0 <= i < old(self).items@.len() && old(self).items@[i] == p
                            && final(self).items@ =~= old(self).items@.update(
                            i,
                            old(self).items@.last(),
                        ).drop_last()
                    &&& forall|j: int|
                        0 <= j < old(self).items@.len() ==> p.0 <= (#[trigger] old(self).items@[j]).0
                },
            },
    {
        let n = self.items.len();
        if n == 0 {
            return None;
        }
        let mut best: usize = 0;
        let mut k: usize = 1;
        while k < n
            invariant
                1 <= k <= n,
                n == self.items@.len(),
                0 <= best < k,
                forall|j: int|
                    0 <= j < k ==> self.items@[best as int].0 <= (#[trigger] self.items@[j]).0,
            decreases n - k,
        {
            if self.items[k].0 < self.items[best].0 {
                best = k;
            }
            k = k + 1;
        }
        let p = self.items[best];
        let ghost pre = self.items@;
        let last = self.items.pop().unwrap();
        if best < self.items.len() {
            self.items.set(best, last);
            proof {
                assert(self.items@ =~= pre.update(best as int, pre.last()).drop_last());
            }
        } else {
            proof {
                assert(self.items@ =~= pre.update(best as int, pre.last()).drop_last());
            }
        }
        Some(p)
    }
}

} // verus!
