use vstd::prelude::*;

verus! {

/// The list after `sol` was pushed onto `list`: `sol` in front, and the
/// oldest entry dropped when the list would exceed `capacity`.
pub open spec fn pushed<T>(list: Seq<T>, sol: T, capacity: nat) -> Seq<T> {
    let l = seq![sol] + list;
    if l.len() > capacity {
        l.drop_last()
    } else {
        l
    }
}

/// Whether `sol` shares more than `limit` similar placements with some entry
/// of `list`, where `similar(a, b)` counts the similar placements of `a` and
/// `b`.
pub open spec fn is_tabu_in<T>(
    list: Seq<T>,
    sol: T,
    similar: spec_fn(T, T) -> nat,
    limit: nat,
) -> bool {
    exists|i: int| 0 <= i < list.len() && #[trigger] similar(sol, list[i]) > limit
}

/// The most recently visited solutions, newest first, up to a capacity.
/// A solution counts as tabu when it shares more than `n_similar_limit`
/// similar placements with one of them.
pub struct TabuList<T> {
    pub capacity: usize,
    pub list: Vec<T>,
    pub n_similar_limit: usize,
}

impl<T> TabuList<T> {
    /// An empty list with the given capacity and similarity limit.
    pub fn new(capacity: usize, n_similar_limit: usize) -> (t: Self)
        ensures
            t.capacity == capacity,
            t.n_similar_limit == n_similar_limit,
            t.list@ == Seq::<T>::empty(),
    {
        TabuList { capacity, list: Vec::with_capacity(capacity), n_similar_limit }
    }

    /// Puts `sol` in front; drops the oldest entry when the list outgrows its
    /// capacity.
    pub fn push(&mut self, sol: T)
        ensures
            final(self).capacity == old(self).capacity,
            final(self).n_similar_limit == old(self).n_similar_limit,
            final(self).list@ == pushed(old(self).list@, sol, old(self).capacity as nat),
            old(self).list@.len() < old(self).capacity ==> final(self).list@ == seq![sol] + old(self).list@,
            old(self).list@.len() == old(self).capacity ==> final(self).list@ == (seq![sol] + old(self).list@).take(
                old(self).capacity as int,
            ),
    {
        let ghost sol_g = sol;
        self.list.insert(0, sol);
        if self.list.len() > self.capacity {
            self.list.pop();
        }
        assert(self.list@ =~= pushed(old(self).list@, sol_g, old(self).capacity as nat)) by {
            assert(old(self).list@.insert(0, sol_g) =~= seq![sol_g] + old(self).list@);
        }
        proof {
            let l = seq![sol_g] + old(self).list@;
            if old(self).list@.len() == old(self).capacity {
                if l.len() > old(self).capacity {
                    assert(l.drop_last() =~= l.take(old(self).capacity as int));
                } else {
                    assert(l =~= l.take(old(self).capacity as int));
                }
            }
        }
    }

    /// Whether a solution is tabu, given for each entry of the list (in list
    /// order) how many similar placements the solution shares with it.
    pub fn sol_is_tabu(&self, n_similar: &Vec<usize>) -> (r: bool)
        requires
            n_similar@.len() == self.list@.len(),
        ensures
            r == exists|i: int| 0 <= i < n_similar@.len() && #[trigger] n_similar@[i] > self.n_similar_limit,
            forall|sol: T, similar: spec_fn(T, T) -> nat|
                (forall|i: int| 0 <= i < n_similar@.len() ==> n_similar@[i] == #[trigger] similar(sol, self.list@[i]))
                ==> (r == #[trigger] is_tabu_in(self.list@, sol, similar, self.n_similar_limit as nat)),
    {
        let mut i: usize = 0;
        while i < n_similar.len()
            invariant
                i <= n_similar@.len(),
                n_similar@.len() == self.list@.len(),
                forall|j: int| 0 <= j < i ==> #[trigger] n_similar@[j] <= self.n_similar_limit,
            decreases n_similar@.len() - i,
        {
            if n_similar[i] > self.n_similar_limit {
                assert forall|sol: T, similar: spec_fn(T, T) -> nat|
                    (forall|j: int| 0 <= j < n_similar@.len() ==> n_similar@[j] == #[trigger] similar(sol, self.list@[j]))
                    implies #[trigger] is_tabu_in(self.list@, sol, similar, self.n_similar_limit as nat) by {
                    assert(n_similar@[i as int] == similar(sol, self.list@[i as int]));
                }
                return true;
            }
            i = i + 1;
        }
        false
    }

    /// Empties the list.
    pub fn clear(&mut self)
        ensures
            final(self).capacity == old(self).capacity,
            final(self).n_similar_limit == old(self).n_similar_limit,
            final(self).list@ == Seq::<T>::empty(),
    {
        self.list.clear();
    }
}

/// A list within its capacity stays within it after a push, and the pushed
/// solution is its newest entry (provided the capacity is not zero).
/// Nothing is dropped while there is room: the list after the push holds
/// `min(len + 1, capacity)` entries, the pushed solution followed by the
/// former entries, newest first.
pub proof fn lemma_push_bounded<T>(list: Seq<T>, sol: T, capacity: nat)
    requires
        list.len() <= capacity,
    ensures
        pushed(list, sol, capacity).len() <= capacity,
        pushed(list, sol, capacity).len() == if list.len() + 1 <= capacity {
            list.len() + 1
        } else {
            capacity
        },
        list.len() < capacity ==> pushed(list, sol, capacity) == seq![sol] + list,
        pushed(list, sol, capacity) == (seq![sol] + list).take(pushed(list, sol, capacity).len() as int),
        capacity > 0 ==> pushed(list, sol, capacity)[0] == sol,
        forall|i: int|
            0 <= i < pushed(list, sol, capacity).len() - 1 ==> #[trigger] pushed(
                list,
                sol,
                capacity,
            )[i + 1] == list[i],
{
    let l = seq![sol] + list;
    if l.len() > capacity {
        assert(l.drop_last() =~= l.take(l.len() - 1));
    } else {
        assert(l.take(l.len() as int) =~= l);
    }
}

/// A solution that is similar to itself in more than `limit` placements is
/// tabu right after it was pushed onto a list of non-zero capacity, whatever
/// the list held before.
pub proof fn lemma_pushed_solution_is_tabu<T>(
    list: Seq<T>,
    sol: T,
    capacity: nat,
    similar: spec_fn(T, T) -> nat,
    limit: nat,
)
    requires
        capacity >= 1,
        similar(sol, sol) > limit,
    ensures
        is_tabu_in(pushed(list, sol, capacity), sol, similar, limit),
{
    let l = pushed(list, sol, capacity);
    assert(l[0] == sol);
    assert(similar(sol, l[0]) > limit);
}

} // verus!
