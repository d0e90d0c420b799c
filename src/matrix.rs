//! The matrix type and its operations.
//!
//! Elements are of any `Copy` type. The scalar arithmetic (sum, difference,
//! and the multiply-accumulate step of a dot product) is supplied by the
//! caller as closures, and every contract states each element of a result in
//! terms of what those closures may return. Rows and columns are numbered
//! from 1 in the executable interface and from 0 in the specifications.
//! A product of an `m` by `n` and an `n` by `p` matrix is `m` by `p`, and a
//! vector constructor given no elements yields a dimension of length 0.

use vstd::prelude::*;
use vstd::std_specs::iter::IteratorSpec;
use vstd::string::*;

verus! {

/// Why an operation on matrices was refused.
#[derive(Debug, Clone, Copy, PartialEq, Eq, Structural)]
pub enum MatrixError {
    /// The data length differs from `rows * columns`.
    ShapeMismatch,
    /// A 1-based row or column lies outside `1..=rows` or `1..=columns`.
    IndexOutOfBounds,
    /// The operands' shapes do not fit the operation.
    DimensionMismatch,
    /// The two sequences of a dot product differ in length.
    LengthMismatch,
}

/// The mathematical value of a matrix: its shape and its elements in
/// row-major order.
pub struct MatrixView<T> {
    pub rows: nat,
    pub columns: nat,
    pub data: Seq<T>,
}

impl<T> MatrixView<T> {
    /// The element count matches the shape.
    pub open spec fn wf(self) -> bool {
        self.data.len() == self.rows * self.columns
    }

    /// Element at 0-based position `(i, j)`.
    pub open spec fn entry(self, i: int, j: int) -> T {
        self.data[i * self.columns + j]
    }

    /// Row `i` (0-based), left to right.
    pub open spec fn row(self, i: int) -> Seq<T> {
        Seq::new(self.columns, |j: int| self.entry(i, j))
    }

    /// Column `j` (0-based), top to bottom.
    pub open spec fn column(self, j: int) -> Seq<T> {
        Seq::new(self.rows, |i: int| self.entry(i, j))
    }
}

/// `trace[k]` is the running sum of a dot product of `lhs` and `rhs` after
/// `k` pairs: it starts at `zero` and `step(acc, x, y)` folds in each pair.
pub open spec fn is_dot_trace<T, F: Fn(T, T, T) -> T>(
    step: F,
    zero: T,
    lhs: Seq<T>,
    rhs: Seq<T>,
    trace: Seq<T>,
) -> bool {
    &&& lhs.len() == rhs.len()
    &&& trace.len() == lhs.len() + 1
    &&& trace[0] == zero
    &&& forall|k: int|
        0 <= k < lhs.len() ==> #[trigger] step.ensures((trace[k], lhs[k], rhs[k]), trace[k + 1])
}

/// `r` is a possible value of the dot product of `lhs` and `rhs`, starting at
/// `zero` and folding the pairs in order with `step`.
pub open spec fn is_dot<T, F: Fn(T, T, T) -> T>(
    step: F,
    zero: T,
    lhs: Seq<T>,
    rhs: Seq<T>,
    r: T,
) -> bool {
    exists|trace: Seq<T>| is_dot_trace(step, zero, lhs, rhs, trace) && trace.last() == r
}

/// `p` is a product of `a` and `b`: it has `a`'s rows and `b`'s columns, and
/// its element `(i, j)` is a dot product of row `i` of `a` and column `j` of `b`.
pub open spec fn is_product<T, F: Fn(T, T, T) -> T>(
    a: MatrixView<T>,
    b: MatrixView<T>,
    zero: T,
    step: F,
    p: MatrixView<T>,
) -> bool {
    &&& p.wf()
    &&& p.rows == a.rows
    &&& p.columns == b.columns
    &&& forall|i: int, j: int|
        0 <= i < p.rows && 0 <= j < p.columns ==> is_dot(
            step,
            zero,
            a.row(i),
            b.column(j),
            #[trigger] p.entry(i, j),
        )
}

/// A 3-argument step accepts every accumulator and pair.
pub open spec fn step_total<T, F: Fn(T, T, T) -> T>(step: F) -> bool {
    forall|acc: T, x: T, y: T| #[trigger] step.requires((acc, x, y))
}


/// `r` combines `a` and `b` element by element: it has their shape and each
/// element is a result of `op` on the elements at the same position.
pub open spec fn is_elementwise<T, F: Fn(T, T) -> T>(
    a: MatrixView<T>,
    b: MatrixView<T>,
    op: F,
    r: MatrixView<T>,
) -> bool {
    &&& r.wf()
    &&& r.rows == a.rows
    &&& r.columns == a.columns
    &&& forall|k: int|
        0 <= k < r.data.len() ==> op.ensures((a.data[k], b.data[k]), #[trigger] r.data[k])
}

/// A 2-argument operation accepts every pair of elements.
pub open spec fn op_total<T, F: Fn(T, T) -> T>(op: F) -> bool {
    forall|x: T, y: T| #[trigger] op.requires((x, y))
}

/// The cells of one row, separated by `", "`.
pub open spec fn join_cells(cells: Seq<Seq<char>>) -> Seq<char>
    decreases cells.len(),
{
    if cells.len() == 0 {
        Seq::empty()
    } else if cells.len() == 1 {
        cells[0]
    } else {
        join_cells(cells.drop_last()) + seq![',', ' '] + cells.last()
    }
}

/// One row as a display line: `[a, b, c]` and a line break.
pub open spec fn bracket_row(cells: Seq<Seq<char>>) -> Seq<char> {
    seq!['['] + join_cells(cells) + seq![']', '\n']
}

/// Rendered cells in row-major order laid out as one line per row of
/// `columns` cells.
pub open spec fn display_rows(cells: Seq<Seq<char>>, columns: nat) -> Seq<char>
    decreases cells.len(),
{
    if columns == 0 || cells.len() < columns {
        Seq::empty()
    } else {
        display_rows(cells.subrange(0, cells.len() - columns), columns) + bracket_row(
            cells.subrange(cells.len() - columns, cells.len() as int),
        )
    }
}

/// The text of each string.
pub open spec fn texts(cells: Seq<String>) -> Seq<Seq<char>> {
    cells.map_values(|c: String| c@)
}

/// A dense matrix whose elements are stored row by row. Two matrices are
/// equal when their shapes and their elements, in order, are equal.
#[derive(Debug, Clone, PartialEq)]
pub struct Matrix<T> {
    data: Vec<T>,
    rows: usize,
    columns: usize,
}

impl<T> View for Matrix<T> {
    type V = MatrixView<T>;

    closed spec fn view(&self) -> MatrixView<T> {
        MatrixView { rows: self.rows as nat, columns: self.columns as nat, data: self.data@ }
    }
}

impl<T: Copy> Matrix<T> {
    /// The matrix is well formed: its element count matches its shape.
    pub open spec fn wf(&self) -> bool {
        self@.wf()
    }

    /// Copies `data`, read row by row, into a `rows` by `columns` matrix.
    pub fn new(data: &[T], rows: usize, columns: usize) -> (r: Result<Matrix<T>, MatrixError>)
        ensures
            r.is_ok() <==> data@.len() == rows * columns,
            r matches Ok(m) ==> m.wf() && m@.rows == rows && m@.columns == columns && m@.data
                == data@,
            r matches Err(e) ==> e == MatrixError::ShapeMismatch,
    {
        let len = data.len();
        match rows.checked_mul(columns) {
            Some(total) => {
                if total == len {
                    Ok(Matrix { data: copy_slice(data), rows, columns })
                } else {
                    Err(MatrixError::ShapeMismatch)
                }
            },
            None => {
                assert(rows * columns > usize::MAX);
                Err(MatrixError::ShapeMismatch)
            },
        }
    }

    /// A `1` by `n` matrix holding `data` as its single row (`n` is the
    /// length of `data`, so an empty `data` gives a row of no columns).
    pub fn from_row_vec(data: &[T]) -> (r: Matrix<T>)
        ensures
            r.wf(),
            r@.rows == 1,
            r@.columns == data@.len(),
            r@.data == data@,
    {
        Matrix { data: copy_slice(data), rows: 1, columns: data.len() }
    }

    /// An `n` by `1` matrix holding `data` as its single column (an empty
    /// `data` gives a column of no rows).
    pub fn from_column_vec(data: &[T]) -> (r: Matrix<T>)
        ensures
            r.wf(),
            r@.rows == data@.len(),
            r@.columns == 1,
            r@.data == data@,
    {
        Matrix { data: copy_slice(data), rows: data.len(), columns: 1 }
    }

    /// Whether `(row, column)` is a 1-based position inside the matrix.
    pub open spec fn in_bounds(&self, row: int, column: int) -> bool {
        1 <= row <= self@.rows && 1 <= column <= self@.columns
    }

    /// Flat index of the 1-based position `(row, column)`.
    fn get_index(&self, row: usize, column: usize) -> (r: usize)
        requires
            self.wf(),
            self.in_bounds(row as int, column as int),
        ensures
            r == (row - 1) * self@.columns + (column - 1),
            r < self@.data.len(),
    {
        proof {
            lemma_flat_index(row - 1, column - 1, self@.rows as int, self@.columns as int);
        }
        // The length of `data`, a `usize`, bounds the index.
        let _len = self.data.len();
        (row - 1) * self.columns + (column - 1)
    }

    /// The element at the 1-based position `(row, column)`.
    pub fn get(&self, row: usize, column: usize) -> (r: Result<T, MatrixError>)
        requires
            self.wf(),
        ensures
            r.is_ok() <==> self.in_bounds(row as int, column as int),
            r matches Ok(v) ==> v == self@.entry(row - 1, column - 1),
            r matches Err(e) ==> e == MatrixError::IndexOutOfBounds,
    {
        if row == 0 || row > self.rows || column == 0 || column > self.columns {
            return Err(MatrixError::IndexOutOfBounds);
        }
        Ok(self.data[self.get_index(row, column)])
    }

    /// Overwrites the element at the 1-based position `(row, column)`; the
    /// shape and every other element stay as they were.
    pub fn set(&mut self, element: T, row: usize, column: usize) -> (r: Result<(), MatrixError>)
        requires
            old(self).wf(),
        ensures
            final(self).wf(),
            r.is_ok() <==> old(self).in_bounds(row as int, column as int),
            r matches Err(e) ==> e == MatrixError::IndexOutOfBounds && final(self)@ == old(self)@,
            r is Ok ==> final(self)@.rows == old(self)@.rows && final(self)@.columns == old(
                self,
            )@.columns && final(self)@.data == old(self)@.data.update(
                (row - 1) * old(self)@.columns + (column - 1),
                element,
            ),
    {
        if row == 0 || row > self.rows || column == 0 || column > self.columns {
            return Err(MatrixError::IndexOutOfBounds);
        }
        let index = self.get_index(row, column);
        self.data.set(index, element);
        Ok(())
    }

    /// Row `row` (1-based), left to right.
    pub fn get_row(&self, row: usize) -> (r: Result<Vec<T>, MatrixError>)
        requires
            self.wf(),
        ensures
            r.is_ok() <==> 1 <= row <= self@.rows,
            r matches Ok(v) ==> v@ == self@.row(row - 1),
            r matches Err(e) ==> e == MatrixError::IndexOutOfBounds,
    {
        if row == 0 || row > self.rows {
            return Err(MatrixError::IndexOutOfBounds);
        }
        Ok(self.row_vec(row - 1))
    }

    /// Column `column` (1-based), top to bottom.
    pub fn get_column(&self, column: usize) -> (r: Result<Vec<T>, MatrixError>)
        requires
            self.wf(),
        ensures
            r.is_ok() <==> 1 <= column <= self@.columns,
            r matches Ok(v) ==> v@ == self@.column(column - 1),
            r matches Err(e) ==> e == MatrixError::IndexOutOfBounds,
    {
        if column == 0 || column > self.columns {
            return Err(MatrixError::IndexOutOfBounds);
        }
        Ok(self.column_vec(column - 1))
    }

    /// The elements in row-major order, consuming the matrix.
    pub fn into_iter(self) -> (r: std::vec::IntoIter<T>)
        requires
            self.wf(),
        ensures
            r.remaining().len() == self@.rows * self@.columns,
            r.remaining() == self@.data,
    {
        proof {
            broadcast use vstd::std_specs::vec::axiom_spec_into_iter;
        }
        self.data.into_iter()
    }

    /// Number of rows.
    pub fn rows(&self) -> (r: usize)
        ensures
            r == self@.rows,
    {
        self.rows
    }

    /// Number of columns.
    pub fn columns(&self) -> (r: usize)
        ensures
            r == self@.columns,
    {
        self.columns
    }

    /// The elements in row-major order.
    pub fn data(&self) -> (r: &Vec<T>)
        ensures
            r@ == self@.data,
    {
        &self.data
    }

    /// Dot product of two sequences of equal length: starting at `zero`,
    /// `step(acc, x, y)` folds in each pair `(x, y)` in order.
    pub fn dot_product<F: Fn(T, T, T) -> T>(lhs: Vec<T>, rhs: Vec<T>, zero: T, step: &F) -> (r:
        Result<T, MatrixError>)
        requires
            step_total(*step),
        ensures
            r.is_ok() <==> lhs@.len() == rhs@.len(),
            r matches Ok(v) ==> is_dot(*step, zero, lhs@, rhs@, v),
            r matches Err(e) ==> e == MatrixError::LengthMismatch,
    {
        if lhs.len() != rhs.len() {
            return Err(MatrixError::LengthMismatch);
        }
        let mut acc = zero;
        let ghost mut trace: Seq<T> = seq![zero];
        let mut k: usize = 0;
        while k < lhs.len()
            invariant
                step_total(*step),
                lhs@.len() == rhs@.len(),
                k <= lhs@.len(),
                is_dot_trace(*step, zero, lhs@.subrange(0, k as int), rhs@.subrange(0, k as int), trace),
                trace.last() == acc,
            decreases lhs@.len() - k,
        {
            let next = step(acc, lhs[k], rhs[k]);
            proof {
                let t2 = trace.push(next);
                let l2 = lhs@.subrange(0, k + 1);
                let r2 = rhs@.subrange(0, k + 1);
                assert forall|q: int| 0 <= q < l2.len() implies #[trigger] step.ensures(
                    (t2[q], l2[q], r2[q]),
                    t2[q + 1],
                ) by {
                    if q < k {
                        assert(l2[q] == lhs@.subrange(0, k as int)[q]);
                        assert(r2[q] == rhs@.subrange(0, k as int)[q]);
                    }
                }
                trace = t2;
            }
            acc = next;
            k += 1;
        }
        assert(lhs@.subrange(0, k as int) == lhs@);
        assert(rhs@.subrange(0, k as int) == rhs@);
        Ok(acc)
    }

    /// Matrix product `self * rhs`: element `(i, j)` is the dot product of
    /// row `i` of `self` and column `j` of `rhs`, each taken with `zero` and
    /// `step` as in `dot_product`. The result has `self`'s rows and `rhs`'s
    /// columns, and its element count must fit in a `usize`.
    pub fn mul<F: Fn(T, T, T) -> T>(&self, rhs: &Matrix<T>, zero: T, step: &F) -> (r: Result<
        Matrix<T>,
        MatrixError,
    >)
        requires
            self.wf(),
            rhs.wf(),
            step_total(*step),
            self@.rows * rhs@.columns <= usize::MAX,
        ensures
            r.is_ok() <==> self@.columns == rhs@.rows,
            r matches Ok(m) ==> is_product(self@, rhs@, zero, *step, m@),
            r matches Err(e) ==> e == MatrixError::DimensionMismatch,
    {
        if self.columns != rhs.rows {
            return Err(MatrixError::DimensionMismatch);
        }
        let ghost p = rhs@.columns as int;
        let mut res: Vec<T> = Vec::new();
        let mut i: usize = 0;
        while i < self.rows
            invariant
                self.wf(),
                rhs.wf(),
                step_total(*step),
                self@.columns == rhs@.rows,
                p == rhs@.columns,
                i <= self@.rows,
                res@.len() == i * p,
                forall|ii: int, jj: int|
                    0 <= ii < i && 0 <= jj < p ==> is_dot(
                        *step,
                        zero,
                        self@.row(ii),
                        rhs@.column(jj),
                        #[trigger] res@[ii * p + jj],
                    ),
            decreases self@.rows - i,
        {
            let mut j: usize = 0;
            while j < rhs.columns
                invariant
                    self.wf(),
                    rhs.wf(),
                    step_total(*step),
                    self@.columns == rhs@.rows,
                    p == rhs@.columns,
                    i < self@.rows,
                    j <= p,
                    res@.len() == i * p + j,
                    forall|ii: int, jj: int|
                        0 <= ii < i && 0 <= jj < p ==> is_dot(
                            *step,
                            zero,
                            self@.row(ii),
                            rhs@.column(jj),
                            #[trigger] res@[ii * p + jj],
                        ),
                    forall|jj: int|
                        0 <= jj < j ==> is_dot(
                            *step,
                            zero,
                            self@.row(i as int),
                            rhs@.column(jj),
                            #[trigger] res@[i * p + jj],
                        ),
                decreases p - j,
            {
                let v = Matrix::dot_product(self.row_vec(i), rhs.column_vec(j), zero, step).unwrap();
                let ghost prev = res@;
                res.push(v);
                proof {
                    assert forall|ii: int, jj: int| 0 <= ii < i && 0 <= jj < p implies is_dot(
                        *step,
                        zero,
                        self@.row(ii),
                        rhs@.column(jj),
                        #[trigger] res@[ii * p + jj],
                    ) by {
                        lemma_flat_index(ii, jj, i as int, p);
                        assert(res@[ii * p + jj] == prev[ii * p + jj]);
                    }
                }
                j += 1;
            }
            assert(i * p + p == (i + 1) * p) by (nonlinear_arith);
            i += 1;
        }
        let m = Matrix { data: res, rows: self.rows, columns: rhs.columns };
        assert forall|ii: int, jj: int| 0 <= ii < m@.rows && 0 <= jj < m@.columns implies is_dot(
            *step,
            zero,
            self@.row(ii),
            rhs@.column(jj),
            #[trigger] m@.entry(ii, jj),
        ) by {
            assert(m@.entry(ii, jj) == res@[ii * p + jj]);
        }
        Ok(m)
    }

    /// Element-wise sum `self + rhs`, each element given by `plus`.
    pub fn add<F: Fn(T, T) -> T>(&self, rhs: &Matrix<T>, plus: &F) -> (r: Result<
        Matrix<T>,
        MatrixError,
    >)
        requires
            self.wf(),
            rhs.wf(),
            op_total(*plus),
        ensures
            r.is_ok() <==> (self@.rows == rhs@.rows && self@.columns == rhs@.columns),
            r matches Ok(m) ==> is_elementwise(self@, rhs@, *plus, m@),
            r matches Err(e) ==> e == MatrixError::DimensionMismatch,
    {
        self.zip_with(rhs, plus)
    }

    /// Element-wise difference `self - rhs`, each element given by `minus`.
    pub fn sub<F: Fn(T, T) -> T>(&self, rhs: &Matrix<T>, minus: &F) -> (r: Result<
        Matrix<T>,
        MatrixError,
    >)
        requires
            self.wf(),
            rhs.wf(),
            op_total(*minus),
        ensures
            r.is_ok() <==> (self@.rows == rhs@.rows && self@.columns == rhs@.columns),
            r matches Ok(m) ==> is_elementwise(self@, rhs@, *minus, m@),
            r matches Err(e) ==> e == MatrixError::DimensionMismatch,
    {
        self.zip_with(rhs, minus)
    }

    /// Combines two matrices of one shape element by element with `op`.
    fn zip_with<F: Fn(T, T) -> T>(&self, rhs: &Matrix<T>, op: &F) -> (r: Result<
        Matrix<T>,
        MatrixError,
    >)
        requires
            self.wf(),
            rhs.wf(),
            op_total(*op),
        ensures
            r.is_ok() <==> (self@.rows == rhs@.rows && self@.columns == rhs@.columns),
            r matches Ok(m) ==> is_elementwise(self@, rhs@, *op, m@),
            r matches Err(e) ==> e == MatrixError::DimensionMismatch,
    {
        if self.rows != rhs.rows || self.columns != rhs.columns {
            return Err(MatrixError::DimensionMismatch);
        }
        let mut res: Vec<T> = Vec::with_capacity(self.data.len());
        let mut k: usize = 0;
        while k < self.data.len()
            invariant
                op_total(*op),
                self@.data.len() == rhs@.data.len(),
                k <= self@.data.len(),
                res@.len() == k,
                forall|q: int|
                    0 <= q < k ==> op.ensures((self@.data[q], rhs@.data[q]), #[trigger] res@[q]),
            decreases self@.data.len() - k,
        {
            res.push(op(self.data[k], rhs.data[k]));
            k += 1;
        }
        Ok(Matrix { data: res, rows: self.rows, columns: self.columns })
    }

    /// The matrix as text, one line per row: `[a, b]` and a line break, each
    /// element written by `render`. A matrix without elements gives "".
    pub fn to_display_string<F: Fn(T) -> String>(&self, render: &F) -> (r: String)
        requires
            self.wf(),
            forall|x: T| #[trigger] render.requires((x,)),
        ensures
            exists|cells: Seq<String>|
                cells.len() == self@.data.len() && (forall|k: int|
                    0 <= k < cells.len() ==> render.ensures(
                        (self@.data[k],),
                        #[trigger] cells[k],
                    )) && r@ == display_rows(texts(cells), self@.columns),
    {
        let mut out = String::new();
        let ghost mut cells: Seq<String> = Seq::empty();
        if self.columns == 0 {
            proof {
                assert(self@.data.len() == 0) by (nonlinear_arith)
                    requires
                        self@.data.len() == self@.rows * self@.columns,
                        self@.columns == 0,
                ;
                assert(out@ == display_rows(texts(cells), self@.columns));
            }
            return out;
        }
        proof {
            reveal_strlit("[");
            reveal_strlit(", ");
            reveal_strlit("]\n");
        }
        let total = self.data.len();
        let mut i: usize = 0;
        while i < self.rows
            invariant
                self.wf(),
                total == self@.data.len(),
                forall|x: T| #[trigger] render.requires((x,)),
                self@.columns > 0,
                i <= self@.rows,
                cells.len() == i * self@.columns,
                forall|k: int|
                    0 <= k < cells.len() ==> render.ensures(
                        (self@.data[k],),
                        #[trigger] cells[k],
                    ),
                out@ == display_rows(texts(cells), self@.columns),
                "["@ == seq!['['],
                ", "@ == seq![',', ' '],
                "]\n"@ == seq![']', '\n'],
            decreases self@.rows - i,
        {
            let mut line = String::new();
            line.append("[");
            let ghost mut row: Seq<String> = Seq::empty();
            let mut j: usize = 0;
            while j < self.columns
                invariant
                    self.wf(),
                    total == self@.data.len(),
                    forall|x: T| #[trigger] render.requires((x,)),
                    i < self@.rows,
                    j <= self@.columns,
                    row.len() == j,
                    forall|q: int|
                        0 <= q < j ==> render.ensures(
                            (self@.entry(i as int, q),),
                            #[trigger] row[q],
                        ),
                    line@ == seq!['['] + join_cells(texts(row)),
                    ", "@ == seq![',', ' '],
                decreases self@.columns - j,
            {
                proof {
                    lemma_flat_index(i as int, j as int, self@.rows as int, self@.columns as int);
                }
                if j > 0 {
                    line.append(", ");
                }
                let cell = render(self.data[i * self.columns + j]);
                proof {
                    let r2 = row.push(cell);
                    assert(texts(r2).drop_last() =~= texts(row));
                    row = r2;
                }
                line.append(cell.as_str());
                j += 1;
            }
            line.append("]\n");
            proof {
                lemma_flat_index(i as int, 0, self@.rows as int, self@.columns as int);
                let c2 = cells + row;
                let n = c2.len();
                assert(texts(c2).subrange(0, n - self@.columns) =~= texts(cells));
                assert(texts(c2).subrange(n - self@.columns, n as int) =~= texts(row));
                assert forall|k: int| 0 <= k < c2.len() implies render.ensures(
                    (self@.data[k],),
                    #[trigger] c2[k],
                ) by {
                    if k >= cells.len() {
                        assert(c2[k] == row[k - cells.len()]);
                    }
                }
                assert(c2.len() == (i + 1) * self@.columns) by (nonlinear_arith)
                    requires
                        c2.len() == i * self@.columns + self@.columns,
                ;
                cells = c2;
            }
            out.append(line.as_str());
            i += 1;
        }
        out
    }

    /// Row `i` (0-based) as a fresh vector.
    fn row_vec(&self, i: usize) -> (r: Vec<T>)
        requires
            self.wf(),
            i < self@.rows,
        ensures
            r@ == self@.row(i as int),
    {
        let mut r: Vec<T> = Vec::with_capacity(self.columns);
        let total = self.data.len();
        let mut j: usize = 0;
        while j < self.columns
            invariant
                self.wf(),
                total == self@.data.len(),
                i < self@.rows,
                j <= self@.columns,
                r@.len() == j,
                forall|q: int| 0 <= q < j ==> r@[q] == self@.entry(i as int, q),
            decreases self@.columns - j,
        {
            proof {
                lemma_flat_index(i as int, j as int, self@.rows as int, self@.columns as int);
            }
            r.push(self.data[i * self.columns + j]);
            j += 1;
        }
        assert(r@ =~= self@.row(i as int));
        r
    }

    /// Column `j` (0-based) as a fresh vector.
    fn column_vec(&self, j: usize) -> (r: Vec<T>)
        requires
            self.wf(),
            j < self@.columns,
        ensures
            r@ == self@.column(j as int),
    {
        let mut r: Vec<T> = Vec::with_capacity(self.rows);
        let total = self.data.len();
        let mut i: usize = 0;
        while i < self.rows
            invariant
                self.wf(),
                total == self@.data.len(),
                j < self@.columns,
                i <= self@.rows,
                r@.len() == i,
                forall|q: int| 0 <= q < i ==> r@[q] == self@.entry(q, j as int),
            decreases self@.rows - i,
        {
            proof {
                lemma_flat_index(i as int, j as int, self@.rows as int, self@.columns as int);
            }
            r.push(self.data[i * self.columns + j]);
            i += 1;
        }
        assert(r@ =~= self@.column(j as int));
        r
    }
}

/// A fresh vector holding the elements of `s` in order.
fn copy_slice<T: Copy>(s: &[T]) -> (r: Vec<T>)
    ensures
        r@ == s@,
{
    let mut r: Vec<T> = Vec::with_capacity(s.len());
    let mut k: usize = 0;
    while k < s.len()
        invariant
            k <= s@.len(),
            r@ == s@.subrange(0, k as int),
        decreases s@.len() - k,
    {
        r.push(s[k]);
        k += 1;
    }
    r
}

/// A 0-based position inside a `rows` by `columns` shape lies inside its
/// row-major storage.
proof fn lemma_flat_index(i: int, j: int, rows: int, columns: int)
    requires
        0 <= i < rows,
        0 <= j < columns,
    ensures
        0 <= i * columns,
        i * columns + j < rows * columns,
        (i + 1) * columns <= rows * columns,
{
    assert(0 <= i * columns) by (nonlinear_arith)
        requires
            0 <= i,
            0 <= columns,
    ;
    assert((i + 1) * columns <= rows * columns) by (nonlinear_arith)
        requires
            i + 1 <= rows,
            0 <= columns,
    ;
    assert((i + 1) * columns == i * columns + columns) by (nonlinear_arith);
}

} // verus!
