//! A dense rectangular matrix value type, generic over its cell type, with
//! elementary operations: constant-fill construction, an identity-like
//! construction, element access, transpose, an element-wise map, a validated
//! row-list builder, and matrix multiplication against a caller-supplied
//! inner-product function.
//!
//! A matrix is a non-empty sequence of non-empty rows of equal length
//! (the rectangularity invariant); every operation below preserves it.

use vstd::prelude::*;

verus! {

/// A grid is rectangular when it has at least one row, at least one column,
/// and all rows share one length.
pub open spec fn rectangular<T>(g: Seq<Seq<T>>) -> bool {
    &&& g.len() > 0
    &&& g[0].len() > 0
    &&& forall|r: int| 0 <= r < g.len() ==> #[trigger] g[r].len() == g[0].len()
}

/// The transpose of a grid: cell (j, i) of the result is cell (i, j) of `g`.
pub open spec fn transpose_of<T>(g: Seq<Seq<T>>) -> Seq<Seq<T>> {
    Seq::new(g[0].len(), |j: int| Seq::new(g.len(), |i: int| g[i][j]))
}

/// Column `j` of a grid, read top to bottom.
pub open spec fn column_of<T>(g: Seq<Seq<T>>, j: int) -> Seq<T> {
    Seq::new(g.len(), |k: int| g[k][j])
}

/// The view of a row-major list of rows.
pub open spec fn rows_view<T>(rows: Seq<Vec<T>>) -> Seq<Seq<T>> {
    rows.map_values(|r: Vec<T>| r@)
}

/// Transposing a rectangular grid twice gives back the grid itself.
pub proof fn lemma_transpose_involutive<T>(g: Seq<Seq<T>>)
    requires
        rectangular(g),
    ensures
        transpose_of(transpose_of(g)) == g,
{
    let t = transpose_of(g);
    assert(t.len() == g[0].len());
    assert(forall|j: int| 0 <= j < t.len() ==> (#[trigger] t[j]).len() == g.len());
    assert(transpose_of(t).len() == g.len());
    assert forall|i: int| 0 <= i < g.len() implies #[trigger] transpose_of(t)[i] =~= g[i] by {
        assert(transpose_of(t)[i].len() == t.len());
        assert(g[i].len() == g[0].len());
    }
    assert(transpose_of(transpose_of(g)) =~~= g);
}

/// A dense row-major matrix with at least one row and one column.
#[derive(Debug, Clone, PartialEq)]
pub struct Matrix<T> {
    elems: Vec<Vec<T>>,
}

impl<T> View for Matrix<T> {
    type V = Seq<Seq<T>>;

    closed spec fn view(&self) -> Seq<Seq<T>> {
        self.elems@.map_values(|row: Vec<T>| row@)
    }
}

impl<T: Copy> Matrix<T> {
    /// The rectangularity invariant, as seen through the matrix's view.
    pub open spec fn well_formed(&self) -> bool {
        rectangular(self@)
    }

    /// The number of rows.
    pub open spec fn spec_rows(&self) -> nat {
        self@.len()
    }

    /// The number of columns.
    pub open spec fn spec_cols(&self) -> nat {
        self@[0].len()
    }

    /// Builds a `rows` by `cols` matrix with every cell equal to `value`.
    pub fn constant(value: T, rows: usize, cols: usize) -> (m: Matrix<T>)
        requires
            rows > 0,
            cols > 0,
        ensures
            m.well_formed(),
            m.spec_rows() == rows,
            m.spec_cols() == cols,
            forall|i: int, j: int|
                0 <= i < rows && 0 <= j < cols ==> m@[i][j] == value,
    {
        let mut grid: Vec<Vec<T>> = Vec::new();
        let mut r: usize = 0;
        while r < rows
            invariant
                r <= rows,
                grid@.len() == r,
                forall|i: int| 0 <= i < r ==> (#[trigger] grid@[i])@.len() == cols,
                forall|i: int, j: int|
                    0 <= i < r && 0 <= j < cols ==> grid@[i]@[j] == value,
            decreases rows - r,
        {
            let mut row: Vec<T> = Vec::new();
            let mut c: usize = 0;
            while c < cols
                invariant
                    c <= cols,
                    row@.len() == c,
                    forall|j: int| 0 <= j < c ==> row@[j] == value,
                decreases cols - c,
            {
                row.push(value);
                c = c + 1;
            }
            grid.push(row);
            r = r + 1;
        }
        let m = Matrix { elems: grid };
        proof {
            assert(m@.len() == rows);
            assert(forall|i: int| 0 <= i < rows ==> #[trigger] m@[i].len() == cols);
        }
        m
    }

    /// Returns the dimensions as (row count, column count).
    pub fn size(&self) -> (s: (usize, usize))
        requires
            self.well_formed(),
        ensures
            s.0 == self.spec_rows(),
            s.1 == self.spec_cols(),
    {
        proof {
            assert(self@[0] == self.elems@[0]@);
        }
        (self.elems.len(), self.elems[0].len())
    }

    /// Returns the cell at (`row`, `col`).
    pub fn get(&self, row: usize, col: usize) -> (v: T)
        requires
            self.well_formed(),
            row < self.spec_rows(),
            col < self.spec_cols(),
        ensures
            v == self@[row as int][col as int],
    {
        proof {
            assert(self@[row as int] == self.elems@[row as int]@);
        }
        self.elems[row][col]
    }

    /// Writes `val` into cell (`row`, `col`) and returns it. Used only by the
    /// constructors above to fill a fresh result in place; the public
    /// operations behave as pure transforms.
    fn set_inplace(&mut self, val: T, row: usize, col: usize) -> (r: T)
        requires
            old(self).well_formed(),
            row < old(self).spec_rows(),
            col < old(self).spec_cols(),
        ensures
            final(self)@ == old(self)@.update(
                row as int,
                old(self)@[row as int].update(col as int, val),
            ),
            final(self).well_formed(),
            final(self).spec_rows() == old(self).spec_rows(),
            final(self).spec_cols() == old(self).spec_cols(),
            r == val,
    {
        proof {
            assert(self@[row as int] == self.elems@[row as int]@);
        }
        self.elems[row][col] = val;
        proof {
            assert(self@ =~~= old(self)@.update(
                row as int,
                old(self)@[row as int].update(col as int, val),
            ));
        }
        val
    }

    /// Builds a `rows` by `cols` matrix of `zero` cells with `one` in every
    /// cell (i, i) of the main diagonal. For non-square dimensions this is the
    /// rectangular identity-like matrix, by design.
    pub fn identity(zero: T, one: T, rows: usize, cols: usize) -> (m: Matrix<T>)
        requires
            rows > 0,
            cols > 0,
        ensures
            m.well_formed(),
            m.spec_rows() == rows,
            m.spec_cols() == cols,
            forall|i: int, j: int|
                0 <= i < rows && 0 <= j < cols ==> m@[i][j] == (if i == j {
                    one
                } else {
                    zero
                }),
    {
        let mut m = Matrix::constant(zero, rows, cols);
        let min: usize = if rows < cols {
            rows
        } else {
            cols
        };
        let mut i: usize = 0;
        while i < min
            invariant
                m.well_formed(),
                m.spec_rows() == rows,
                m.spec_cols() == cols,
                i <= min,
                min <= rows,
                min <= cols,
                rows > 0,
                cols > 0,
                forall|a: int, b: int|
                    0 <= a < rows && 0 <= b < cols ==> m@[a][b] == (if a == b && a < i {
                        one
                    } else {
                        zero
                    }),
            decreases min - i,
        {
            m.set_inplace(one, i, i);
            i = i + 1;
        }
        m
    }

    /// Returns a new matrix of the same dimensions whose cell (i, j) is `f`
    /// applied to cell (i, j) of `self`. Uniform scaling and offsetting are
    /// this map with a one-argument arithmetic function.
    pub fn map_cells<F: Fn(T) -> T>(&self, f: F) -> (m: Matrix<T>)
        requires
            self.well_formed(),
            forall|i: int, j: int|
                0 <= i < self.spec_rows() && 0 <= j < self.spec_cols() ==> #[trigger] f.requires(
                    (self@[i][j],),
                ),
        ensures
            m.well_formed(),
            m.spec_rows() == self.spec_rows(),
            m.spec_cols() == self.spec_cols(),
            forall|i: int, j: int|
                #![trigger m@[i][j]]
                0 <= i < self.spec_rows() && 0 <= j < self.spec_cols() ==> f.ensures(
                    (self@[i][j],),
                    m@[i][j],
                ),
    {
        let (rows, cols) = self.size();
        let mut grid: Vec<Vec<T>> = Vec::new();
        let mut i: usize = 0;
        while i < rows
            invariant
                self.well_formed(),
                rows == self.spec_rows(),
                cols == self.spec_cols(),
                forall|a: int, b: int|
                    0 <= a < self.spec_rows() && 0 <= b < self.spec_cols() ==> #[trigger] f.requires(
                        (self@[a][b],),
                    ),
                i <= rows,
                grid@.len() == i,
                forall|a: int| 0 <= a < i ==> (#[trigger] grid@[a])@.len() == cols,
                forall|a: int, b: int|
                    #![trigger grid@[a]@[b]]
                    0 <= a < i && 0 <= b < cols ==> f.ensures((self@[a][b],), grid@[a]@[b]),
            decreases rows - i,
        {
            let mut row: Vec<T> = Vec::new();
            let mut j: usize = 0;
            while j < cols
                invariant
                    self.well_formed(),
                    rows == self.spec_rows(),
                    cols == self.spec_cols(),
                    forall|a: int, b: int|
                        0 <= a < self.spec_rows() && 0 <= b < self.spec_cols() ==> #[trigger] f.requires(
                            (self@[a][b],),
                        ),
                    i < rows,
                    j <= cols,
                    row@.len() == j,
                    forall|b: int|
                        #![trigger row@[b]]
                        0 <= b < j ==> f.ensures((self@[i as int][b],), row@[b]),
                decreases cols - j,
            {
                let cell = f(self.get(i, j));
                row.push(cell);
                j = j + 1;
            }
            grid.push(row);
            i = i + 1;
        }
        let m = Matrix { elems: grid };
        proof {
            assert(forall|a: int| 0 <= a < rows ==> #[trigger] m@[a].len() == cols);
        }
        m
    }

    /// Returns the transpose: a new matrix where cell (j, i) is cell (i, j)
    /// of `self`. Does not change `self`.
    pub fn transpose(&self) -> (m: Matrix<T>)
        requires
            self.well_formed(),
        ensures
            m.well_formed(),
            m@ == transpose_of(self@),
            m.spec_rows() == self.spec_cols(),
            m.spec_cols() == self.spec_rows(),
            forall|i: int, j: int|
                #![trigger m@[j][i]]
                0 <= i < self.spec_rows() && 0 <= j < self.spec_cols() ==> m@[j][i] == self@[i][j],
    {
        let (rows, cols) = self.size();
        let mut grid: Vec<Vec<T>> = Vec::new();
        let mut j: usize = 0;
        while j < cols
            invariant
                self.well_formed(),
                rows == self.spec_rows(),
                cols == self.spec_cols(),
                j <= cols,
                grid@.len() == j,
                forall|b: int| 0 <= b < j ==> (#[trigger] grid@[b])@.len() == rows,
                forall|b: int, a: int|
                    #![trigger grid@[b]@[a]]
                    0 <= b < j && 0 <= a < rows ==> grid@[b]@[a] == self@[a][b],
            decreases cols - j,
        {
            let mut row: Vec<T> = Vec::new();
            let mut i: usize = 0;
            while i < rows
                invariant
                    self.well_formed(),
                    rows == self.spec_rows(),
                    cols == self.spec_cols(),
                    j < cols,
                    i <= rows,
                    row@.len() == i,
                    forall|a: int| #![trigger row@[a]] 0 <= a < i ==> row@[a] == self@[a][j as int],
                decreases rows - i,
            {
                row.push(self.get(i, j));
                i = i + 1;
            }
            grid.push(row);
            j = j + 1;
        }
        let m = Matrix { elems: grid };
        proof {
            assert(m@ =~~= transpose_of(self@));
        }
        m
    }

    /// Builds a matrix from a row-major list of rows, validating
    /// rectangularity: returns `None` exactly when the list is empty, its
    /// first row is empty, or some row's length differs from the first's.
    pub fn from_rows(rows: Vec<Vec<T>>) -> (r: Option<Matrix<T>>)
        ensures
            r is Some <==> rectangular(rows_view(rows@)),
            r is Some ==> r.unwrap()@ == rows_view(rows@),
    {
        if rows.len() == 0 {
            return None;
        }
        let first_len: usize = rows[0].len();
        if first_len == 0 {
            return None;
        }
        let mut idx: usize = 0;
        while idx < rows.len()
            invariant
                rows@.len() > 0,
                first_len == rows@[0]@.len(),
                first_len > 0,
                idx <= rows@.len(),
                forall|k: int| 0 <= k < idx ==> (#[trigger] rows@[k])@.len() == first_len,
            decreases rows@.len() - idx,
        {
            if rows[idx].len() != first_len {
                proof {
                    assert(rows_view(rows@)[idx as int] == rows@[idx as int]@);
                    assert(rows_view(rows@)[0] == rows@[0]@);
                }
                return None;
            }
            idx = idx + 1;
        }
        let m = Matrix { elems: rows };
        proof {
            assert(rectangular(rows_view(m.elems@)));
        }
        Some(m)
    }

    /// Row `i` of the matrix, as a fresh vector.
    pub fn row(&self, i: usize) -> (r: Vec<T>)
        requires
            self.well_formed(),
            i < self.spec_rows(),
        ensures
            r@ == self@[i as int],
    {
        let cols: usize = self.size().1;
        let mut out: Vec<T> = Vec::new();
        let mut k: usize = 0;
        while k < cols
            invariant
                self.well_formed(),
                i < self.spec_rows(),
                cols == self.spec_cols(),
                k <= cols,
                out@.len() == k,
                forall|c: int| #![trigger out@[c]] 0 <= c < k ==> out@[c] == self@[i as int][c],
            decreases cols - k,
        {
            out.push(self.get(i, k));
            k = k + 1;
        }
        proof {
            assert(out@ =~= self@[i as int]);
        }
        out
    }

    /// Column `j` of the matrix, read top to bottom, as a fresh vector.
    pub fn column(&self, j: usize) -> (r: Vec<T>)
        requires
            self.well_formed(),
            j < self.spec_cols(),
        ensures
            r@ == column_of(self@, j as int),
    {
        let rows: usize = self.size().0;
        let mut out: Vec<T> = Vec::new();
        let mut k: usize = 0;
        while k < rows
            invariant
                self.well_formed(),
                j < self.spec_cols(),
                rows == self.spec_rows(),
                k <= rows,
                out@.len() == k,
                forall|c: int| #![trigger out@[c]] 0 <= c < k ==> out@[c] == self@[c][j as int],
            decreases rows - k,
        {
            out.push(self.get(k, j));
            k = k + 1;
        }
        proof {
            assert(out@ =~= column_of(self@, j as int));
        }
        out
    }

    /// Standard matrix multiplication with the inner product supplied by the
    /// caller: cell (i, j) of the result is `inner` applied to `mat1`, `mat2`
    /// and the position (i, j); the supplied function is meant to return the
    /// inner product of row i of `mat1` with column j of `mat2`, which `row`
    /// and `column` above hand it. Returns `None` exactly when the inner
    /// dimensions disagree, that is, when the column count of `mat1` differs
    /// from the row count of `mat2`.
    pub fn dot_product<F: Fn(&Matrix<T>, &Matrix<T>, usize, usize) -> T>(
        mat1: &Matrix<T>,
        mat2: &Matrix<T>,
        inner: F,
    ) -> (r: Option<Matrix<T>>)
        requires
            mat1.well_formed(),
            mat2.well_formed(),
            forall|i: usize, j: usize|
                i < mat1.spec_rows() && j < mat2.spec_cols() ==> #[trigger] inner.requires(
                    (mat1, mat2, i, j),
                ),
        ensures
            r is Some <==> mat1.spec_cols() == mat2.spec_rows(),
            r is Some ==> r.unwrap().well_formed(),
            r is Some ==> r.unwrap().spec_rows() == mat1.spec_rows(),
            r is Some ==> r.unwrap().spec_cols() == mat2.spec_cols(),
            r is Some ==> forall|i: usize, j: usize|
                i < mat1.spec_rows() && j < mat2.spec_cols() ==> #[trigger] inner.ensures(
                    (mat1, mat2, i, j),
                    r.unwrap()@[i as int][j as int],
                ),
    {
        let (m1_rows, m1_cols) = mat1.size();
        let (m2_rows, m2_cols) = mat2.size();
        if m1_cols != m2_rows {
            return None;
        }
        let mut grid: Vec<Vec<T>> = Vec::new();
        let mut i: usize = 0;
        while i < m1_rows
            invariant
                mat1.well_formed(),
                mat2.well_formed(),
                forall|a: usize, b: usize|
                    a < mat1.spec_rows() && b < mat2.spec_cols() ==> #[trigger] inner.requires(
                        (mat1, mat2, a, b),
                    ),
                m1_rows == mat1.spec_rows(),
                m1_cols == mat1.spec_cols(),
                m2_rows == mat2.spec_rows(),
                m2_cols == mat2.spec_cols(),
                m1_cols == m2_rows,
                i <= m1_rows,
                grid@.len() == i,
                forall|a: int| 0 <= a < i ==> (#[trigger] grid@[a])@.len() == m2_cols,
                forall|a: usize, b: usize|
                    #![trigger grid@[a as int]@[b as int]]
                    a < i && b < m2_cols ==> inner.ensures(
                        (mat1, mat2, a, b),
                        grid@[a as int]@[b as int],
                    ),
            decreases m1_rows - i,
        {
            let mut row_out: Vec<T> = Vec::new();
            let mut j: usize = 0;
            while j < m2_cols
                invariant
                    mat1.well_formed(),
                    mat2.well_formed(),
                    forall|a: usize, b: usize|
                        a < mat1.spec_rows() && b < mat2.spec_cols() ==> #[trigger] inner.requires(
                            (mat1, mat2, a, b),
                        ),
                    m1_rows == mat1.spec_rows(),
                    m1_cols == mat1.spec_cols(),
                    m2_rows == mat2.spec_rows(),
                    m2_cols == mat2.spec_cols(),
                    m1_cols == m2_rows,
                    i < m1_rows,
                    j <= m2_cols,
                    row_out@.len() == j,
                    forall|b: usize|
                        #![trigger row_out@[b as int]]
                        b < j ==> inner.ensures((mat1, mat2, i, b), row_out@[b as int]),
                decreases m2_cols - j,
            {
                let cell = inner(mat1, mat2, i, j);
                row_out.push(cell);
                j = j + 1;
            }
            grid.push(row_out);
            i = i + 1;
        }
        let m = Matrix { elems: grid };
        proof {
            assert(forall|a: int| 0 <= a < m1_rows ==> #[trigger] m@[a].len() == m2_cols);
            assert forall|a: usize, b: usize|
                a < mat1.spec_rows() && b < mat2.spec_cols() implies #[trigger] inner.ensures(
                (mat1, mat2, a, b),
                m@[a as int][b as int],
            ) by {
                assert(m@[a as int] == grid@[a as int]@);
            }
        }
        Some(m)
    }
}

} // verus!
