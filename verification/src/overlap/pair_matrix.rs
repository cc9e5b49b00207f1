use vstd::prelude::*;

verus! {

/// Number of cells of the upper triangle (diagonal included) that lie in the
/// rows before `row` of an `n`-by-`n` matrix.
pub open spec fn row_start(row: int, n: int) -> int {
    row * n - row * (row - 1) / 2
}

/// Position of the unordered pair `{row, col}` in the row-major enumeration
/// of the upper triangle of an `n`-by-`n` matrix.
pub open spec fn tri_index(row: int, col: int, n: int) -> int {
    if row <= col {
        row_start(row, n) + (col - row)
    } else {
        row_start(col, n) + (row - col)
    }
}

/// Number of cells of the upper triangle of an `n`-by-`n` matrix.
pub open spec fn tri_len(n: int) -> int {
    n * (n + 1) / 2
}

proof fn lemma_consecutive_product_even(r: int)
    requires
        0 <= r,
    ensures
        (r * (r - 1)) % 2 == 0,
    decreases r,
{
    if r > 0 {
        lemma_consecutive_product_even(r - 1);
        let a = (r - 1) * (r - 2);
        assert(r * (r - 1) == a + 2 * (r - 1)) by (nonlinear_arith)
            requires a == (r - 1) * (r - 2);
        vstd::arithmetic::div_mod::lemma_mod_multiples_vanish(r - 1, a, 2);
        assert(2 * (r - 1) + a == r * (r - 1));
    } else {
        assert(r * (r - 1) == 0) by (nonlinear_arith)
            requires r == 0;
    }
}

proof fn lemma_row_start_step(r: int, n: int)
    requires
        0 <= r,
    ensures
        row_start(r + 1, n) == row_start(r, n) + (n - r),
{
    assert((r + 1) * r == r * (r - 1) + 2 * r) by (nonlinear_arith);
    assert((r + 1) * n == r * n + n) by (nonlinear_arith);
    let a = r * (r - 1);
    lemma_consecutive_product_even(r);
    assert((a + 2 * r) / 2 == a / 2 + r);
}

proof fn lemma_row_start_mono(r1: int, r2: int, n: int)
    requires
        0 <= r1 <= r2 <= n,
    ensures
        row_start(r1, n) + (n - r1) <= row_start(r2, n) || r1 == r2,
        row_start(r1, n) <= row_start(r2, n),
    decreases r2 - r1,
{
    if r1 < r2 {
        lemma_row_start_step(r2 - 1, n);
        lemma_row_start_mono(r1, r2 - 1, n);
        if r1 < r2 - 1 {
            lemma_row_start_step(r1, n);
        }
    }
}

proof fn lemma_row_start_end(n: int)
    requires
        0 <= n,
    ensures
        row_start(n, n) == tri_len(n),
{
    let a = n * (n - 1);
    lemma_consecutive_product_even(n);
    assert(n * (n + 1) == a + 2 * n) by (nonlinear_arith)
        requires a == n * (n - 1);
    assert(n * n == a + n) by (nonlinear_arith)
        requires a == n * (n - 1);
    assert((a + 2 * n) / 2 == a / 2 + n);
}

/// The cell of a pair does not depend on the order in which the pair is given.
pub proof fn lemma_tri_index_symmetric(row: int, col: int, n: int)
    ensures
        tri_index(row, col, n) == tri_index(col, row, n),
{
}

/// Every pair of indices below `n` has its cell inside the triangular storage.
pub proof fn lemma_tri_index_in_bounds(row: int, col: int, n: int)
    requires
        0 <= row < n,
        0 <= col < n,
    ensures
        0 <= tri_index(row, col, n) < tri_len(n),
{
    let (lo, hi) = if row <= col { (row, col) } else { (col, row) };
    lemma_row_start_step(lo, n);
    lemma_row_start_mono(lo + 1, n, n);
    lemma_row_start_end(n);
    lemma_row_start_mono(0, lo, n);
}

/// Two different unordered pairs never share a cell.
pub proof fn lemma_tri_index_injective(r1: int, c1: int, r2: int, c2: int, n: int)
    requires
        0 <= r1 < n,
        0 <= c1 < n,
        0 <= r2 < n,
        0 <= c2 < n,
        tri_index(r1, c1, n) == tri_index(r2, c2, n),
    ensures
        (r1 == r2 && c1 == c2) || (r1 == c2 && c1 == r2),
{
    let (lo1, hi1) = if r1 <= c1 { (r1, c1) } else { (c1, r1) };
    let (lo2, hi2) = if r2 <= c2 { (r2, c2) } else { (c2, r2) };
    if lo1 < lo2 {
        lemma_row_start_mono(lo1, lo2, n);
    } else if lo2 < lo1 {
        lemma_row_start_mono(lo2, lo1, n);
    }
}

proof fn lemma_row_of_index(idx: int, n: int, r: int)
    requires
        0 <= r <= n,
        0 <= row_start(r, n) <= idx < tri_len(n),
    ensures
        exists|row: int| r <= row < n && #[trigger] row_start(row, n) <= idx < row_start(row, n) + (n - row),
    decreases n - r,
{
    lemma_row_start_step(r, n);
    lemma_row_start_end(n);
    if idx >= row_start(r, n) + (n - r) {
        if r == n {
            assert(false);
        }
        lemma_row_of_index(idx, n, r + 1);
    }
}

/// Every cell of the triangular storage belongs to some pair: together with
/// [`lemma_tri_index_injective`], the storage holds exactly one cell per
/// unordered pair.
pub proof fn lemma_tri_index_surjective(idx: int, n: int)
    requires
        0 <= n,
        0 <= idx < tri_len(n),
    ensures
        exists|row: int, col: int| 0 <= row <= col < n && tri_index(row, col, n) == idx,
{
    assert(n > 0) by {
        if n == 0 {
            assert(n * (n + 1) == 0) by (nonlinear_arith)
                requires n == 0;
            assert(tri_len(n) == 0);
        }
    }
    assert(row_start(0, n) == 0);
    lemma_row_of_index(idx, n, 0);
    let row = choose|row: int| 0 <= row < n && #[trigger] row_start(row, n) <= idx < row_start(row, n) + (n - row);
    let col = row + (idx - row_start(row, n));
    assert(tri_index(row, col, n) == idx);
}

/// Position in the triangular storage of the cell shared by `(row, col)` and
/// `(col, row)`.
pub fn calc_idx(row: usize, col: usize, size: usize) -> (idx: usize)
    requires
        row < size,
        col < size,
        (if row <= col { row * size + col } else { col * size + row }) <= usize::MAX,
    ensures
        idx == tri_index(row as int, col as int, size as int),
        idx < tri_len(size as int),
{
    proof {
        lemma_tri_index_in_bounds(row as int, col as int, size as int);
    }
    let (lo, hi) = if row <= col { (row, col) } else { (col, row) };
    assert(lo * (lo + 1) <= lo * size + hi) by (nonlinear_arith)
        requires lo < size, lo <= hi;
    assert(lo * (lo + 1) / 2 <= lo * (lo + 1));
    let r = (lo * size) + hi - ((lo * (lo + 1)) / 2);
    proof {
        assert(lo * (lo + 1) == lo * (lo - 1) + 2 * lo) by (nonlinear_arith);
        let a = lo * (lo - 1);
        lemma_consecutive_product_even(lo as int);
        assert((a + 2 * lo) / 2 == a / 2 + lo);
    }
    r
}

proof fn lemma_pair_offset_fits(row: usize, col: usize, size: usize)
    requires
        row < size,
        col < size,
        size * (size + 1) <= usize::MAX,
    ensures
        (if row <= col { row * size + col } else { col * size + row }) <= usize::MAX,
{
    let (lo, hi) = if row <= col { (row, col) } else { (col, row) };
    assert(lo * size + hi < size * (size + 1)) by (nonlinear_arith)
        requires lo < size, hi < size;
}

/// Symmetric matrix of pair-wise entries, stored as its upper triangle.
/// Entry `(i, j)` and entry `(j, i)` are one and the same cell.
#[derive(Debug, Clone)]
pub struct OTPairMatrix<T> {
    pub size: usize,
    pub data: Vec<T>,
}

impl<T: Copy> OTPairMatrix<T> {
    /// The storage holds exactly one cell per unordered pair and its length
    /// is computable without overflow.
    pub open spec fn wf(&self) -> bool {
        &&& self.size * (self.size + 1) <= usize::MAX
        &&& self.data@.len() == tri_len(self.size as int)
    }

    /// The entry of the pair `{row, col}`.
    pub open spec fn cell(&self, row: int, col: int) -> T {
        self.data@[tri_index(row, col, self.size as int)]
    }

    /// A matrix of `size` rows whose every entry is `default`.
    pub fn new(size: usize, default: T) -> (m: Self)
        requires
            size * (size + 1) <= usize::MAX,
        ensures
            m.wf(),
            m.size == size,
            forall|i: int| 0 <= i < m.data@.len() ==> m.data@[i] == default,
    {
        assert(size + 1 <= usize::MAX) by (nonlinear_arith)
            requires size * (size + 1) <= usize::MAX;
        assert(size * (size + 1) / 2 <= size * (size + 1));
        let len = size * (size + 1) / 2;
        let mut data: Vec<T> = Vec::with_capacity(len);
        let mut i: usize = 0;
        while i < len
            invariant
                i <= len,
                data@.len() == i,
                forall|j: int| 0 <= j < i ==> data@[j] == default,
            decreases len - i,
        {
            data.push(default);
            i = i + 1;
        }
        Self { size, data }
    }

    /// The entry of the pair `{row, col}`.
    pub fn get(&self, row: usize, col: usize) -> (e: T)
        requires
            self.wf(),
            row < self.size,
            col < self.size,
        ensures
            e == self.cell(row as int, col as int),
    {
        proof {
            lemma_pair_offset_fits(row, col, self.size);
        }
        self.data[calc_idx(row, col, self.size)]
    }

    /// Replaces the entry of the pair `{row, col}`; every other pair keeps its
    /// entry.
    pub fn set(&mut self, row: usize, col: usize, e: T)
        requires
            old(self).wf(),
            row < old(self).size,
            col < old(self).size,
        ensures
            final(self).wf(),
            final(self).size == old(self).size,
            final(self).cell(row as int, col as int) == e,
            final(self).cell(col as int, row as int) == e,
            forall|i: int, j: int|
                0 <= i < old(self).size && 0 <= j < old(self).size && !(i == row && j == col)
                    && !(i == col && j == row) ==> #[trigger] final(self).cell(i, j) == old(
                    self,
                ).cell(i, j),
    {
        proof {
            lemma_pair_offset_fits(row, col, self.size);
        }
        let idx = calc_idx(row, col, self.size);
        self.data.set(idx, e);
        proof {
            let n = self.size as int;
            assert forall|i: int, j: int|
                0 <= i < n && 0 <= j < n && !(i == row && j == col) && !(i == col && j
                    == row) implies #[trigger] self.cell(i, j) == old(self).cell(i, j) by {
                lemma_tri_index_in_bounds(i, j, n);
                if tri_index(i, j, n) == idx {
                    lemma_tri_index_injective(i, j, row as int, col as int, n);
                }
            }
        }
    }
}

} // verus!
