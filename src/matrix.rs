use vstd::prelude::*;

verus! {

/// A dense matrix held as its rows, each of `cols` entries.
#[derive(Debug, Clone)]
pub struct Matrix<T> {
    pub cols: usize,
    pub rows: Vec<Vec<T>>,
}

impl<T> Matrix<T> {
    /// Every row has `cols` entries.
    pub open spec fn wf(&self) -> bool {
        forall|i: int| 0 <= i < self.rows.len() ==> (#[trigger] self.rows[i]).len() == self.cols
    }

    pub fn n_rows(&self) -> (r: usize)
        ensures
            r == self.rows.len(),
    {
        self.rows.len()
    }

    pub fn n_cols(&self) -> (r: usize)
        ensures
            r == self.cols,
    {
        self.cols
    }
}

/// A copy of `v`, entry by entry.
pub fn copy_row<T: Copy>(v: &Vec<T>) -> (r: Vec<T>)
    ensures
        r@ == v@,
{
    let mut r: Vec<T> = Vec::new();
    let mut j: usize = 0;
    while j < v.len()
        invariant
            j <= v.len(),
            r@ =~= v@.take(j as int),
        decreases v.len() - j,
    {
        r.push(v[j]);
        j = j + 1;
    }
    assert(v@.take(v.len() as int) =~= v@);
    r
}

/// Every entry of `m` is `z`.
pub open spec fn filled_with<T>(m: Matrix<T>, z: T) -> bool {
    forall|r: int, c: int|
        0 <= r < m.rows.len() && 0 <= c < m.rows[r].len() ==> #[trigger] m.rows[r][c] == z
}

/// Every entry of `s` is `z`.
pub open spec fn seq_filled<T>(s: Seq<T>, z: T) -> bool {
    forall|i: int| 0 <= i < s.len() ==> #[trigger] s[i] == z
}

/// A copy of `m`, row by row.
pub fn copy_matrix<T: Copy>(m: &Matrix<T>) -> (r: Matrix<T>)
    ensures
        r.cols == m.cols,
        r.rows.len() == m.rows.len(),
        forall|i: int| 0 <= i < m.rows.len() ==> (#[trigger] r.rows[i])@ == m.rows[i]@,
{
    let mut rows: Vec<Vec<T>> = Vec::new();
    let mut i: usize = 0;
    while i < m.rows.len()
        invariant
            i <= m.rows.len(),
            rows.len() == i,
            forall|k: int| 0 <= k < i ==> (#[trigger] rows[k])@ == m.rows[k]@,
        decreases m.rows.len() - i,
    {
        rows.push(copy_row(&m.rows[i]));
        i = i + 1;
    }
    Matrix { cols: m.cols, rows }
}

} // verus!
