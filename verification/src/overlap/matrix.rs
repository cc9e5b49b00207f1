use vstd::prelude::*;

verus! {

/// Dense square matrix stored row by row, together with the value that a
/// cleared cell takes.
#[derive(Debug, Clone)]
pub struct Matrix<T: Clone> {
    pub size: usize,
    pub default: T,
    pub data: Vec<T>,
}

impl<T: Clone> Matrix<T> {
    /// The storage holds `size * size` cells.
    pub open spec fn wf(&self) -> bool {
        &&& self.size * self.size <= usize::MAX
        &&& self.data@.len() == self.size * self.size
    }

    /// The cell in row `row` and column `col`.
    pub open spec fn cell(&self, row: int, col: int) -> T {
        self.data@[row * self.size + col]
    }

    /// A `size`-by-`size` matrix whose cells, like its `default`, are clones
    /// of `default`.
    pub fn new(size: usize, default: T) -> (m: Self)
        requires
            size * size <= usize::MAX,
        ensures
            m.wf(),
            m.size == size,
            cloned(default, m.default),
            forall|i: int| 0 <= i < m.data@.len() ==> cloned(default, #[trigger] m.data@[i]),
    {
        let len = size * size;
        let mut data: Vec<T> = Vec::with_capacity(len);
        let mut i: usize = 0;
        while i < len
            invariant
                i <= len,
                data@.len() == i,
                forall|j: int| 0 <= j < i ==> cloned(default, #[trigger] data@[j]),
            decreases len - i,
        {
            data.push(default.clone());
            i = i + 1;
        }
        Self { size, default: default.clone(), data }
    }

    /// Clears row `idx` and column `idx`: their cells become clones of
    /// `default`, every other cell is left as it was.
    pub fn reset_row_and_col(&mut self, idx: usize)
        requires
            old(self).wf(),
            idx < old(self).size || old(self).size == 0,
        ensures
            final(self).wf(),
            final(self).size == old(self).size,
            final(self).default == old(self).default,
            forall|r: int, c: int|
                0 <= r < old(self).size && 0 <= c < old(self).size ==> if r == idx || c == idx {
                    cloned(old(self).default, #[trigger] final(self).cell(r, c))
                } else {
                    final(self).cell(r, c) == old(self).cell(r, c)
                },
    {
        let n = self.size;
        let ghost d = self.default;
        let mut i: usize = 0;
        while i < n
            invariant
                n == self.size,
                self.wf(),
                self.default == d,
                d == old(self).default,
                i <= n,
                idx < n || n == 0,
                forall|r: int, c: int|
                    0 <= r < n && 0 <= c < n ==> if (r == idx && c < i) || (c == idx && r < i) {
                        cloned(d, #[trigger] self.cell(r, c))
                    } else {
                        self.cell(r, c) == old(self).cell(r, c)
                    },
            decreases n - i,
        {
            proof {
                lemma_cell_in_bounds(idx as int, i as int, n as int);
                lemma_cell_in_bounds(i as int, idx as int, n as int);
            }
            let ghost prev = self.data@;
            let ghost s0 = *self;
            let v1 = self.default.clone();
            assert(cloned(d, v1));
            self.data.set(idx * n + i, v1);
            let v2 = self.default.clone();
            assert(cloned(d, v2));
            self.data.set(i * n + idx, v2);
            assert(self.data@ == prev.update(idx * n + i, v1).update(i * n + idx, v2));
            proof {
                assert forall|r: int, c: int| 0 <= r < n && 0 <= c < n implies if (r == idx
                    && c < i + 1) || (c == idx && r < i + 1) {
                    cloned(d, #[trigger] self.cell(r, c))
                } else {
                    self.cell(r, c) == old(self).cell(r, c)
                } by {
                    lemma_cell_in_bounds(r, c, n as int);
                    assert(self.cell(r, c) == self.data@[r * n + c]);
                    assert(s0.cell(r, c) == prev[r * n + c]);
                    lemma_cell_distinct(r, c, idx as int, i as int, n as int);
                    lemma_cell_distinct(r, c, i as int, idx as int, n as int);
                }
            }
            i = i + 1;
        }
    }

    /// The cells of row `row`, in column order.
    pub fn row(&self, row: usize) -> (r: &[T])
        requires
            self.wf(),
            row < self.size || (self.size == 0 && row < usize::MAX),
        ensures
            r@ == self.data@.subrange(row * self.size, (row + 1) * self.size),
    {
        proof {
            if self.size > 0 {
                assert((row + 1) * self.size <= self.size * self.size) by (nonlinear_arith)
                    requires row < self.size;
            } else {
                assert((row + 1) * self.size == 0) by (nonlinear_arith)
                    requires self.size == 0;
            }
            assert(row * self.size <= (row + 1) * self.size) by (nonlinear_arith);
        }
        &self.data.as_slice()[row * self.size..(row + 1) * self.size]
    }

    /// The cell at flat position `row * size + col`.
    pub fn get(&self, row: usize, col: usize) -> (e: &T)
        requires
            self.wf(),
            row * self.size + col < self.size * self.size,
        ensures
            *e == self.cell(row as int, col as int),
    {
        &self.data[row * self.size + col]
    }

    /// Replaces the cell at flat position `row * size + col`.
    pub fn set(&mut self, row: usize, col: usize, e: T)
        requires
            old(self).wf(),
            row * old(self).size + col < old(self).size * old(self).size,
        ensures
            final(self).wf(),
            final(self).size == old(self).size,
            final(self).default == old(self).default,
            final(self).data@ == old(self).data@.update(row * old(self).size + col, e),
    {
        let i = row * self.size + col;
        self.data.set(i, e);
    }
}

proof fn lemma_cell_in_bounds(r: int, c: int, n: int)
    requires
        0 <= r < n,
        0 <= c < n,
    ensures
        0 <= r * n + c < n * n,
{
    assert(0 <= r * n + c < n * n) by (nonlinear_arith)
        requires 0 <= r < n, 0 <= c < n;
}

proof fn lemma_cell_distinct(r: int, c: int, r2: int, c2: int, n: int)
    requires
        0 <= r < n,
        0 <= c < n,
        0 <= r2 < n,
        0 <= c2 < n,
    ensures
        r * n + c == r2 * n + c2 ==> r == r2 && c == c2,
{
    if r < r2 {
        assert(r * n + c < r2 * n + c2) by (nonlinear_arith)
            requires r < r2, 0 <= c < n, 0 <= c2;
    } else if r2 < r {
        assert(r2 * n + c2 < r * n + c) by (nonlinear_arith)
            requires r2 < r, 0 <= c2 < n, 0 <= c;
    }
}

} // verus!
