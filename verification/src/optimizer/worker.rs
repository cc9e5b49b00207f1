use vstd::prelude::*;

verus! {

/// Work done by separation: how many items were moved and how many samples
/// were evaluated.
#[derive(Debug, Clone, Copy, PartialEq, Eq, Structural)]
pub struct SepStats {
    pub total_moves: usize,
    pub total_evals: usize,
}

/// Total number of moves over a sequence of reports.
pub open spec fn sum_moves(reports: Seq<SepStats>) -> int
    decreases reports.len(),
{
    if reports.len() == 0 {
        0
    } else {
        sum_moves(reports.drop_last()) + reports.last().total_moves
    }
}

/// Total number of evaluations over a sequence of reports.
pub open spec fn sum_evals(reports: Seq<SepStats>) -> int
    decreases reports.len(),
{
    if reports.len() == 0 {
        0
    } else {
        sum_evals(reports.drop_last()) + reports.last().total_evals
    }
}

/// Summing the reports of two batches gives the sum of the two batch sums.
pub proof fn lemma_sum_concat(a: Seq<SepStats>, b: Seq<SepStats>)
    ensures
        sum_moves(a + b) == sum_moves(a) + sum_moves(b),
        sum_evals(a + b) == sum_evals(a) + sum_evals(b),
    decreases b.len(),
{
    if b.len() > 0 {
        lemma_sum_concat(a, b.drop_last());
        assert((a + b).drop_last() =~= a + b.drop_last());
    } else {
        assert(a + b =~= a);
    }
}

proof fn lemma_sums_monotone(reports: Seq<SepStats>, i: int)
    requires
        0 <= i <= reports.len(),
    ensures
        0 <= sum_moves(reports.take(i)) <= sum_moves(reports),
        0 <= sum_evals(reports.take(i)) <= sum_evals(reports),
    decreases reports.len() - i,
{
    if i < reports.len() {
        lemma_sums_monotone(reports, i + 1);
        assert(reports.take(i + 1).drop_last() =~= reports.take(i));
        lemma_sums_nonneg(reports.take(i));
    } else {
        assert(reports.take(i) =~= reports);
        lemma_sums_nonneg(reports);
    }
}

proof fn lemma_sums_nonneg(reports: Seq<SepStats>)
    ensures
        0 <= sum_moves(reports),
        0 <= sum_evals(reports),
    decreases reports.len(),
{
    if reports.len() > 0 {
        lemma_sums_nonneg(reports.drop_last());
    }
}

impl SepStats {
    /// Adds the counts of `other` to these.
    pub fn add_assign(&mut self, other: Self)
        requires
            old(self).total_moves + other.total_moves <= usize::MAX,
            old(self).total_evals + other.total_evals <= usize::MAX,
        ensures
            final(self).total_moves == old(self).total_moves + other.total_moves,
            final(self).total_evals == old(self).total_evals + other.total_evals,
    {
        self.total_moves = self.total_moves + other.total_moves;
        self.total_evals = self.total_evals + other.total_evals;
    }

    /// The counts of all reports added up.
    pub fn sum(reports: Vec<SepStats>) -> (total: SepStats)
        requires
            sum_moves(reports@) <= usize::MAX,
            sum_evals(reports@) <= usize::MAX,
        ensures
            total.total_moves == sum_moves(reports@),
            total.total_evals == sum_evals(reports@),
    {
        let mut total_moves: usize = 0;
        let mut total_evals: usize = 0;
        let mut i: usize = 0;
        while i < reports.len()
            invariant
                i <= reports@.len(),
                sum_moves(reports@) <= usize::MAX,
                sum_evals(reports@) <= usize::MAX,
                total_moves == sum_moves(reports@.take(i as int)),
                total_evals == sum_evals(reports@.take(i as int)),
            decreases reports@.len() - i,
        {
            proof {
                lemma_sums_monotone(reports@, i + 1);
                assert(reports@.take(i + 1).drop_last() =~= reports@.take(i as int));
            }
            let report = reports[i];
            total_moves = total_moves + report.total_moves;
            total_evals = total_evals + report.total_evals;
            i = i + 1;
        }
        proof {
            assert(reports@.take(i as int) =~= reports@);
        }
        SepStats { total_moves, total_evals }
    }
}

} // verus!
