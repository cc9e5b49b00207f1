use vstd::prelude::*;

verus! {

/// The keys of `s` never decrease.
pub open spec fn keys_sorted<T>(s: Seq<(T, u32)>) -> bool {
    forall|a: int, b: int| 0 <= a <= b < s.len() ==> #[trigger] s[a].1 <= #[trigger] s[b].1
}

/// Layouts that could not be separated, kept in ascending order of their
/// loss. The loss is given as an integer key that orders entries as the loss
/// does (for a non-negative float, its bit pattern read as an integer).
pub struct SolutionPool<T> {
    entries: Vec<(T, u32)>,
}

impl<T> SolutionPool<T> {
    #[verifier::type_invariant]
    spec fn inv(self) -> bool {
        keys_sorted(self.entries@)
    }

    /// The entries, best (lowest key) first.
    pub closed spec fn view(&self) -> Seq<(T, u32)> {
        self.entries@
    }

    /// An empty pool.
    pub fn new() -> (p: Self)
        ensures
            p.view() == Seq::<(T, u32)>::empty(),
    {
        SolutionPool { entries: Vec::new() }
    }

    /// Number of entries.
    pub fn len(&self) -> (n: usize)
        ensures
            n == self.view().len(),
            keys_sorted(self.view()),
    {
        proof {
            use_type_invariant(self);
        }
        self.entries.len()
    }

    /// The entry at rank `idx` (rank 0 has the lowest key).
    pub fn get(&self, idx: usize) -> (e: &(T, u32))
        requires
            idx < self.view().len(),
        ensures
            *e == self.view()[idx as int],
            keys_sorted(self.view()),
    {
        proof {
            use_type_invariant(self);
        }
        &self.entries[idx]
    }

    /// `idx`, lowered to the last rank when it lies beyond the pool.
    pub fn clamp_index(&self, idx: usize) -> (r: usize)
        requires
            self.view().len() > 0,
        ensures
            r == if idx < self.view().len() { idx as int } else { self.view().len() - 1 },
    {
        let n = self.entries.len();
        if idx < n {
            idx
        } else {
            n - 1
        }
    }

    /// Removes every entry.
    pub fn clear(&mut self)
        ensures
            final(self).view() == Seq::<(T, u32)>::empty(),
    {
        *self = SolutionPool { entries: Vec::new() };
    }

    /// Adds `sol` with loss key `key` behind every entry whose key is at most
    /// `key` and in front of every entry whose key is larger; the other
    /// entries keep their order.
    pub fn insert(&mut self, sol: T, key: u32)
        ensures
            keys_sorted(final(self).view()),
            exists|pos: int|
                0 <= pos <= old(self).view().len() && final(self).view() == old(self).view().insert(
                    pos,
                    (sol, key),
                ) && (forall|a: int| 0 <= a < pos ==> #[trigger] old(self).view()[a].1 <= key)
                    && (forall|a: int|
                    pos <= a < old(self).view().len() ==> #[trigger] old(self).view()[a].1 > key),
    {
        proof {
            use_type_invariant(&*self);
        }
        let n = self.entries.len();
        let mut lo: usize = 0;
        let mut hi: usize = n;
        while lo < hi
            invariant
                n == self.entries@.len(),
                self.entries@ == old(self).entries@,
                keys_sorted(self.entries@),
                lo <= hi <= n,
                forall|a: int| 0 <= a < lo ==> #[trigger] self.entries@[a].1 <= key,
                forall|a: int| hi <= a < n ==> #[trigger] self.entries@[a].1 > key,
            decreases hi - lo,
        {
            let mid = lo + (hi - lo) / 2;
            if self.entries[mid].1 <= key {
                proof {
                    assert forall|a: int| 0 <= a < mid + 1 implies #[trigger] self.entries@[a].1
                        <= key by {
                        assert(self.entries@[a].1 <= self.entries@[mid as int].1);
                    }
                }
                lo = mid + 1;
            } else {
                proof {
                    assert forall|a: int| mid <= a < n implies #[trigger] self.entries@[a].1
                        > key by {
                        assert(self.entries@[mid as int].1 <= self.entries@[a].1);
                    }
                }
                hi = mid;
            }
        }
        let ghost old_entries = self.entries@;
        let ghost new_entries = old_entries.insert(lo as int, (sol, key));
        proof {
            assert forall|a: int, b: int| 0 <= a <= b < new_entries.len() implies #[trigger] new_entries[a].1
                <= #[trigger] new_entries[b].1 by {
                if b < lo {
                } else if a > lo {
                    assert(new_entries[a] == old_entries[a - 1]);
                    assert(new_entries[b] == old_entries[b - 1]);
                } else if a == lo && b == lo {
                } else if a == lo {
                    assert(new_entries[b] == old_entries[b - 1]);
                } else if b == lo {
                } else {
                    assert(new_entries[b] == old_entries[b - 1]);
                }
            }
        }
        let mut entries = Vec::new();
        std::mem::swap(&mut entries, &mut self.entries);
        entries.insert(lo, (sol, key));
        *self = SolutionPool { entries };
        assert(self.view() == old(self).view().insert(lo as int, (sol, key)));
    }
}

} // verus!
