//! A fixed-shape two-dimensional matrix stored row by row.
use vstd::prelude::*;
use crate::scalar::{
    call1, call2, call3, factors_commute, fold_mul_add, is_op1, is_op2, is_op3, lemma_call1, lemma_call2,
    lemma_call3,
};

verus! {

/// The number of rows and columns of a matrix.
#[derive(Debug, Clone, Copy, PartialEq, Eq, Structural)]
pub struct Shape {
    pub rows: usize,
    pub cols: usize,
}

/// Why a matrix operation was refused.
#[derive(Debug, Clone, Copy, PartialEq, Eq, Structural)]
pub enum MatrixError {
    /// The number of values given does not equal `rows * cols`.
    ShapeError,
    /// The operands' shapes do not fit the operation. `expected` is the shape
    /// that the right-hand operand would have needed, `actual` the shape it has.
    DimensionMismatch { expected: Shape, actual: Shape },
}

/// A `rows` by `cols` matrix; `data[i][j]` is the cell in row `i`, column `j`.
#[derive(Debug)]
pub struct Matrix<T> {
    pub rows: usize,
    pub cols: usize,
    pub data: Vec<Vec<T>>,
}

/// The cells held in `data`, as a sequence of rows.
pub open spec fn cells_of<T>(data: Seq<Vec<T>>) -> Seq<Seq<T>> {
    data.map_values(|row: Vec<T>| row@)
}

/// Whether `m` is a grid of `rows` rows of `cols` cells each.
pub open spec fn has_shape<T>(m: Seq<Seq<T>>, rows: int, cols: int) -> bool {
    &&& m.len() == rows
    &&& forall|i: int| 0 <= i < rows ==> (#[trigger] m[i]).len() == cols
}

/// Column `j` of `m`, top to bottom.
pub open spec fn column<T>(m: Seq<Seq<T>>, j: int) -> Seq<T> {
    Seq::new(m.len(), |k: int| m[k][j])
}

/// `f` applied to every cell.
pub open spec fn map_cells<T, F: Fn(T) -> T>(m: Seq<Seq<T>>, f: F) -> Seq<Seq<T>> {
    Seq::new(m.len(), |i: int| Seq::new(m[i].len(), |j: int| call1(f, m[i][j])))
}

/// `f` applied to every pair of cells in the same place.
pub open spec fn zip_cells<T, F: Fn(T, T) -> T>(a: Seq<Seq<T>>, b: Seq<Seq<T>>, f: F) -> Seq<Seq<T>> {
    Seq::new(a.len(), |i: int| Seq::new(a[i].len(), |j: int| call2(f, a[i][j], b[i][j])))
}

/// The matrix product of `a` (with `inner` columns) and `b` (with `cols`
/// columns), each cell accumulated with `f` from `zero` over the shared index
/// in increasing order.
pub open spec fn dot_cells<T, F: Fn(T, T, T) -> T>(
    a: Seq<Seq<T>>,
    b: Seq<Seq<T>>,
    inner: nat,
    cols: nat,
    zero: T,
    f: F,
) -> Seq<Seq<T>> {
    Seq::new(
        a.len(),
        |i: int| Seq::new(cols, |j: int| fold_mul_add(f, zero, a[i], column(b, j), inner)),
    )
}

/// Every cell multiplied by `scalar` with `mul`.
pub open spec fn scale_cells<T, F: Fn(T, T) -> T>(m: Seq<Seq<T>>, scalar: T, mul: F) -> Seq<Seq<T>> {
    Seq::new(m.len(), |i: int| Seq::new(m[i].len(), |j: int| call2(mul, m[i][j], scalar)))
}

/// `mul_add(acc, x, x)` accumulated from `zero` over every cell `x` of the
/// first `n` rows, row by row.
pub open spec fn square_sum_rows<T, F: Fn(T, T, T) -> T>(m: Seq<Seq<T>>, zero: T, mul_add: F, n: nat) -> T
    decreases n,
{
    if n == 0 {
        zero
    } else {
        let row = m[n - 1];
        fold_mul_add(mul_add, square_sum_rows(m, zero, mul_add, (n - 1) as nat), row, row, row.len())
    }
}

/// The transpose of a grid with `rows` rows and `cols` columns.
pub open spec fn transpose_cells<T>(m: Seq<Seq<T>>, rows: nat, cols: nat) -> Seq<Seq<T>> {
    Seq::new(cols, |j: int| Seq::new(rows, |i: int| m[i][j]))
}

/// The grid that `values` fills row by row, `cols` values to a row.
pub open spec fn chunk_cells<T>(values: Seq<T>, rows: nat, cols: nat) -> Seq<Seq<T>> {
    Seq::new(rows, |i: int| Seq::new(cols, |j: int| values[i * cols + j]))
}

impl<T> View for Matrix<T> {
    type V = Seq<Seq<T>>;

    open spec fn view(&self) -> Seq<Seq<T>> {
        cells_of(self.data@)
    }
}

impl<T: Copy> Matrix<T> {
    /// The data holds exactly `rows` rows of exactly `cols` cells each.
    pub open spec fn wf(&self) -> bool {
        has_shape(self@, self.rows as int, self.cols as int)
    }

    /// Whether `self` is `rows` by `cols`.
    pub open spec fn is_shape(&self, rows: int, cols: int) -> bool {
        self.rows == rows && self.cols == cols
    }

    /// Builds a `rows` by `cols` matrix from `values` in row-major order;
    /// refuses a number of values other than `rows * cols`.
    pub fn new(rows: usize, cols: usize, values: Vec<T>) -> (r: Result<Self, MatrixError>)
        ensures
            values.len() != rows * cols ==> r == Err::<Self, MatrixError>(MatrixError::ShapeError),
            values.len() == rows * cols ==> r is Ok,
            r matches Ok(m) ==> m.wf() && m.is_shape(rows as int, cols as int)
                && m@ == chunk_cells(values@, rows as nat, cols as nat),
    {
        if cols == 0 {
            if values.len() != 0 {
                return Err(MatrixError::ShapeError);
            }
        } else if values.len() / cols != rows || values.len() % cols != 0 {
            proof {
                assert(values.len() != rows * cols) by (nonlinear_arith)
                    requires
                        cols > 0,
                        values.len() / cols != rows || values.len() % cols != 0,
                ;
            }
            return Err(MatrixError::ShapeError);
        }
        proof {
            if cols > 0 {
                assert(values.len() == rows * cols) by (nonlinear_arith)
                    requires
                        cols > 0,
                        values.len() / cols == rows,
                        values.len() % cols == 0,
                ;
            }
        }
        let ghost expect = chunk_cells(values@, rows as nat, cols as nat);
        let mut data: Vec<Vec<T>> = Vec::new();
        let mut i: usize = 0;
        while i < rows
            invariant
                i <= rows,
                values.len() == rows * cols,
                expect == chunk_cells(values@, rows as nat, cols as nat),
                data.len() == i,
                forall|p: int| 0 <= p < i ==> (#[trigger] data@[p])@ == expect[p],
            decreases rows - i,
        {
            let mut row: Vec<T> = Vec::new();
            let mut j: usize = 0;
            while j < cols
                invariant
                    i < rows,
                    j <= cols,
                    values.len() == rows * cols,
                    expect == chunk_cells(values@, rows as nat, cols as nat),
                    row@ == expect[i as int].take(j as int),
                decreases cols - j,
            {
                proof {
                    assert(i * cols + j < rows * cols) by (nonlinear_arith)
                        requires
                            i < rows,
                            j < cols,
                    ;
                }
                row.push(values[i * cols + j]);
                j += 1;
                proof {
                    assert(row@ =~= expect[i as int].take(j as int));
                }
            }
            proof {
                assert(row@ =~= expect[i as int]);
            }
            data.push(row);
            i += 1;
        }
        let m = Matrix { rows, cols, data };
        assert(m@ =~= expect);
        Ok(m)
    }

    /// The shape of `self`.
    pub open spec fn shape(&self) -> Shape {
        Shape { rows: self.rows, cols: self.cols }
    }

    /// The matrix product `self · other`: cell (i, j) accumulates
    /// `mul_add(acc, self[i][k], other[k][j])` from `zero` for k = 0, 1, ...
    /// in that order. Refused unless `self.cols == other.rows`.
    pub fn dot<F: Fn(T, T, T) -> T>(&self, other: &Self, zero: T, mul_add: &F) -> (r: Result<Self, MatrixError>)
        requires
            self.wf(),
            other.wf(),
            is_op3(*mul_add),
        ensures
            self.cols != other.rows ==> r == Err::<Self, MatrixError>(
                (MatrixError::DimensionMismatch {
                    expected: Shape { rows: self.cols, cols: other.cols },
                    actual: other.shape(),
                }),
            ),
            self.cols == other.rows ==> r is Ok,
            r matches Ok(m) ==> m.wf() && m.is_shape(self.rows as int, other.cols as int)
                && m@ == dot_cells(self@, other@, self.cols as nat, other.cols as nat, zero, *mul_add),
    {
        if self.cols != other.rows {
            return Err(
                MatrixError::DimensionMismatch {
                    expected: Shape { rows: self.cols, cols: other.cols },
                    actual: Shape { rows: other.rows, cols: other.cols },
                },
            );
        }
        let ghost expect = dot_cells(self@, other@, self.cols as nat, other.cols as nat, zero, *mul_add);
        let mut data: Vec<Vec<T>> = Vec::new();
        let mut i: usize = 0;
        while i < self.rows
            invariant
                self.wf(),
                other.wf(),
                is_op3(*mul_add),
                self.cols == other.rows,
                i <= self.rows,
                expect == dot_cells(self@, other@, self.cols as nat, other.cols as nat, zero, *mul_add),
                data.len() == i,
                forall|p: int| 0 <= p < i ==> (#[trigger] data@[p])@ == expect[p],
            decreases self.rows - i,
        {
            let mut row: Vec<T> = Vec::new();
            let mut j: usize = 0;
            while j < other.cols
                invariant
                    self.wf(),
                    other.wf(),
                    is_op3(*mul_add),
                    self.cols == other.rows,
                    i < self.rows,
                    j <= other.cols,
                    expect == dot_cells(self@, other@, self.cols as nat, other.cols as nat, zero, *mul_add),
                    row@ == expect[i as int].take(j as int),
                decreases other.cols - j,
            {
                let ghost xs = self@[i as int];
                let ghost ys = column(other@, j as int);
                let mut acc = zero;
                let mut k: usize = 0;
                while k < self.cols
                    invariant
                        self.wf(),
                        other.wf(),
                        is_op3(*mul_add),
                        self.cols == other.rows,
                        i < self.rows,
                        j < other.cols,
                        k <= self.cols,
                        xs == self@[i as int],
                        ys == column(other@, j as int),
                        acc == fold_mul_add(*mul_add, zero, xs, ys, k as nat),
                    decreases self.cols - k,
                {
                    let a = self.data[i][k];
                    assert(other@[k as int].len() == other.cols);
                    let b = other.data[k][j];
                    assert(a == xs[k as int]);
                    assert(b == ys[k as int]);
                    let next = mul_add(acc, a, b);
                    proof {
                        lemma_call3(*mul_add, acc, a, b, next);
                    }
                    acc = next;
                    k += 1;
                }
                row.push(acc);
                j += 1;
                proof {
                    assert(row@ =~= expect[i as int].take(j as int));
                }
            }
            proof {
                assert(row@ =~= expect[i as int]);
            }
            data.push(row);
            i += 1;
        }
        let m = Matrix { rows: self.rows, cols: other.cols, data };
        assert(m@ =~= expect);
        Ok(m)
    }

    /// A `rows` by `cols` matrix whose every cell is drawn, on its own, from `draw`.
    pub fn random<F: Fn() -> T>(rows: usize, cols: usize, draw: &F) -> (r: Self)
        requires
            forall|u: ()| #[trigger] draw.requires(u),
        ensures
            r.wf(),
            r.is_shape(rows as int, cols as int),
            forall|i: int, j: int|
                0 <= i < rows && 0 <= j < cols ==> draw.ensures((), #[trigger] r@[i][j]),
    {
        let mut data: Vec<Vec<T>> = Vec::new();
        let mut i: usize = 0;
        while i < rows
            invariant
                forall|u: ()| #[trigger] draw.requires(u),
                i <= rows,
                data.len() == i,
                forall|p: int| 0 <= p < i ==> (#[trigger] data@[p])@.len() == cols,
                forall|p: int, q: int|
                    0 <= p < i && 0 <= q < cols ==> draw.ensures((), #[trigger] data@[p]@[q]),
            decreases rows - i,
        {
            let mut row: Vec<T> = Vec::new();
            let mut j: usize = 0;
            while j < cols
                invariant
                    forall|u: ()| #[trigger] draw.requires(u),
                    j <= cols,
                    row.len() == j,
                    forall|q: int| 0 <= q < j ==> draw.ensures((), #[trigger] row@[q]),
                decreases cols - j,
            {
                assert(draw.requires(()));
                let x = draw();
                row.push(x);
                j += 1;
            }
            data.push(row);
            i += 1;
        }
        Matrix { rows, cols, data }
    }

    /// `f` applied to every cell; the shape is kept.
    pub fn map<F: Fn(T) -> T>(&self, f: &F) -> (r: Self)
        requires
            self.wf(),
            is_op1(*f),
        ensures
            r.wf(),
            r.is_shape(self.rows as int, self.cols as int),
            r@ == map_cells(self@, *f),
    {
        let ghost expect = map_cells(self@, *f);
        let mut data: Vec<Vec<T>> = Vec::new();
        let mut i: usize = 0;
        while i < self.rows
            invariant
                self.wf(),
                is_op1(*f),
                i <= self.rows,
                expect == map_cells(self@, *f),
                data.len() == i,
                forall|p: int| 0 <= p < i ==> (#[trigger] data@[p])@ == expect[p],
            decreases self.rows - i,
        {
            let mut row: Vec<T> = Vec::new();
            let mut j: usize = 0;
            while j < self.cols
                invariant
                    self.wf(),
                    is_op1(*f),
                    i < self.rows,
                    j <= self.cols,
                    expect == map_cells(self@, *f),
                    row@ == expect[i as int].take(j as int),
                decreases self.cols - j,
            {
                assert(self@[i as int].len() == self.cols);
                let x = self.data[i][j];
                let y = f(x);
                proof {
                    lemma_call1(*f, x, y);
                }
                row.push(y);
                j += 1;
                proof {
                    assert(row@ =~= expect[i as int].take(j as int));
                }
            }
            proof {
                assert(row@ =~= expect[i as int]);
            }
            data.push(row);
            i += 1;
        }
        let m = Matrix { rows: self.rows, cols: self.cols, data };
        assert(m@ =~= expect);
        m
    }

    /// `f(self[i][j], other[i][j])` in every cell. Refused unless both
    /// matrices have the same shape.
    pub fn zip_with<F: Fn(T, T) -> T>(&self, other: &Self, f: &F) -> (r: Result<Self, MatrixError>)
        requires
            self.wf(),
            other.wf(),
            is_op2(*f),
        ensures
            self.shape() != other.shape() ==> r == Err::<Self, MatrixError>(
                (MatrixError::DimensionMismatch { expected: self.shape(), actual: other.shape() }),
            ),
            self.shape() == other.shape() ==> r is Ok,
            r matches Ok(m) ==> m.wf() && m.is_shape(self.rows as int, self.cols as int)
                && m@ == zip_cells(self@, other@, *f),
    {
        if self.rows != other.rows || self.cols != other.cols {
            return Err(
                MatrixError::DimensionMismatch {
                    expected: Shape { rows: self.rows, cols: self.cols },
                    actual: Shape { rows: other.rows, cols: other.cols },
                },
            );
        }
        let ghost expect = zip_cells(self@, other@, *f);
        let mut data: Vec<Vec<T>> = Vec::new();
        let mut i: usize = 0;
        while i < self.rows
            invariant
                self.wf(),
                other.wf(),
                self.shape() == other.shape(),
                is_op2(*f),
                i <= self.rows,
                expect == zip_cells(self@, other@, *f),
                data.len() == i,
                forall|p: int| 0 <= p < i ==> (#[trigger] data@[p])@ == expect[p],
            decreases self.rows - i,
        {
            let mut row: Vec<T> = Vec::new();
            let mut j: usize = 0;
            while j < self.cols
                invariant
                    self.wf(),
                    other.wf(),
                    self.shape() == other.shape(),
                    is_op2(*f),
                    i < self.rows,
                    j <= self.cols,
                    expect == zip_cells(self@, other@, *f),
                    row@ == expect[i as int].take(j as int),
                decreases self.cols - j,
            {
                assert(self@[i as int].len() == self.cols);
                assert(other@[i as int].len() == self.cols);
                let x = self.data[i][j];
                let y = other.data[i][j];
                let z = f(x, y);
                proof {
                    lemma_call2(*f, x, y, z);
                }
                row.push(z);
                j += 1;
                proof {
                    assert(row@ =~= expect[i as int].take(j as int));
                }
            }
            proof {
                assert(row@ =~= expect[i as int]);
            }
            data.push(row);
            i += 1;
        }
        let m = Matrix { rows: self.rows, cols: self.cols, data };
        assert(m@ =~= expect);
        Ok(m)
    }

    /// Every cell multiplied by `scalar` with `times`; the shape is kept.
    pub fn multiply_by_scalar<F: Fn(T, T) -> T>(&self, scalar: T, times: &F) -> (r: Self)
        requires
            self.wf(),
            is_op2(*times),
        ensures
            r.wf(),
            r.is_shape(self.rows as int, self.cols as int),
            r@ == scale_cells(self@, scalar, *times),
    {
        let ghost expect = scale_cells(self@, scalar, *times);
        let mut data: Vec<Vec<T>> = Vec::new();
        let mut i: usize = 0;
        while i < self.rows
            invariant
                self.wf(),
                is_op2(*times),
                i <= self.rows,
                expect == scale_cells(self@, scalar, *times),
                data.len() == i,
                forall|p: int| 0 <= p < i ==> (#[trigger] data@[p])@ == expect[p],
            decreases self.rows - i,
        {
            let mut row: Vec<T> = Vec::new();
            let mut j: usize = 0;
            while j < self.cols
                invariant
                    self.wf(),
                    is_op2(*times),
                    i < self.rows,
                    j <= self.cols,
                    expect == scale_cells(self@, scalar, *times),
                    row@ == expect[i as int].take(j as int),
                decreases self.cols - j,
            {
                assert(self@[i as int].len() == self.cols);
                let x = self.data[i][j];
                let y = times(x, scalar);
                proof {
                    lemma_call2(*times, x, scalar, y);
                }
                row.push(y);
                j += 1;
                proof {
                    assert(row@ =~= expect[i as int].take(j as int));
                }
            }
            proof {
                assert(row@ =~= expect[i as int]);
            }
            data.push(row);
            i += 1;
        }
        let m = Matrix { rows: self.rows, cols: self.cols, data };
        assert(m@ =~= expect);
        m
    }

    /// The `cols` by `rows` matrix with `r[j][i] == self[i][j]`.
    pub fn transpose(&self) -> (r: Self)
        requires
            self.wf(),
        ensures
            r.wf(),
            r.is_shape(self.cols as int, self.rows as int),
            r@ == transpose_cells(self@, self.rows as nat, self.cols as nat),
    {
        let ghost expect = transpose_cells(self@, self.rows as nat, self.cols as nat);
        let mut data: Vec<Vec<T>> = Vec::new();
        let mut j: usize = 0;
        while j < self.cols
            invariant
                self.wf(),
                j <= self.cols,
                expect == transpose_cells(self@, self.rows as nat, self.cols as nat),
                data.len() == j,
                forall|p: int| 0 <= p < j ==> (#[trigger] data@[p])@ == expect[p],
            decreases self.cols - j,
        {
            let mut row: Vec<T> = Vec::new();
            let mut i: usize = 0;
            while i < self.rows
                invariant
                    self.wf(),
                    j < self.cols,
                    i <= self.rows,
                    expect == transpose_cells(self@, self.rows as nat, self.cols as nat),
                    row@ == expect[j as int].take(i as int),
                decreases self.rows - i,
            {
                assert(self@[i as int].len() == self.cols);
                row.push(self.data[i][j]);
                i += 1;
                proof {
                    assert(row@ =~= expect[j as int].take(i as int));
                }
            }
            proof {
                assert(row@ =~= expect[j as int]);
            }
            data.push(row);
            j += 1;
        }
        let m = Matrix { rows: self.cols, cols: self.rows, data };
        assert(m@ =~= expect);
        m
    }

    /// Sum of the squares of all cells, row by row and left to right:
    /// `mul_add(acc, x, x)` from `zero` over every cell `x`.
    pub fn square_sum<F: Fn(T, T, T) -> T>(&self, zero: T, mul_add: &F) -> (r: T)
        requires
            self.wf(),
            is_op3(*mul_add),
        ensures
            r == square_sum_rows(self@, zero, *mul_add, self.rows as nat),
    {
        let mut acc = zero;
        let mut i: usize = 0;
        while i < self.rows
            invariant
                self.wf(),
                is_op3(*mul_add),
                i <= self.rows,
                acc == square_sum_rows(self@, zero, *mul_add, i as nat),
            decreases self.rows - i,
        {
            let ghost start = acc;
            let ghost row = self@[i as int];
            let mut j: usize = 0;
            while j < self.cols
                invariant
                    self.wf(),
                    is_op3(*mul_add),
                    i < self.rows,
                    j <= self.cols,
                    row == self@[i as int],
                    acc == fold_mul_add(*mul_add, start, row, row, j as nat),
                decreases self.cols - j,
            {
                assert(self@[i as int].len() == self.cols);
                let x = self.data[i][j];
                let next = mul_add(acc, x, x);
                proof {
                    lemma_call3(*mul_add, acc, x, x, next);
                }
                acc = next;
                j += 1;
            }
            assert(self@[i as int].len() == self.cols);
            i += 1;
        }
        acc
    }
}

/// Accumulating over `xs` and `ys` depends only on their first `n` pairs.
proof fn lemma_fold_prefix<T, F: Fn(T, T, T) -> T>(
    f: F,
    zero: T,
    xs: Seq<T>,
    ys: Seq<T>,
    xs2: Seq<T>,
    ys2: Seq<T>,
    n: nat,
)
    requires
        forall|k: int| 0 <= k < n ==> xs[k] == xs2[k] && ys[k] == ys2[k],
    ensures
        fold_mul_add(f, zero, xs, ys, n) == fold_mul_add(f, zero, xs2, ys2, n),
    decreases n,
{
    if n > 0 {
        lemma_fold_prefix(f, zero, xs, ys, xs2, ys2, (n - 1) as nat);
    }
}

/// With factors that commute, swapping the two sequences keeps the accumulated value.
proof fn lemma_fold_swap<T, F: Fn(T, T, T) -> T>(f: F, zero: T, xs: Seq<T>, ys: Seq<T>, n: nat)
    requires
        factors_commute(f),
    ensures
        fold_mul_add(f, zero, xs, ys, n) == fold_mul_add(f, zero, ys, xs, n),
    decreases n,
{
    if n > 0 {
        lemma_fold_swap(f, zero, xs, ys, (n - 1) as nat);
        let acc = fold_mul_add(f, zero, xs, ys, (n - 1) as nat);
        assert(call3(f, acc, xs[n - 1], ys[n - 1]) == call3(f, acc, ys[n - 1], xs[n - 1]));
    }
}

/// Transposing a product is multiplying the transposes in the other order:
/// `(A · B)ᵀ == Bᵀ · Aᵀ`, for an accumulation whose two factors commute.
pub proof fn lemma_dot_transpose<T, F: Fn(T, T, T) -> T>(
    a: Seq<Seq<T>>,
    b: Seq<Seq<T>>,
    rows: nat,
    inner: nat,
    cols: nat,
    zero: T,
    f: F,
)
    requires
        has_shape(a, rows as int, inner as int),
        has_shape(b, inner as int, cols as int),
        factors_commute(f),
    ensures
        transpose_cells(dot_cells(a, b, inner, cols, zero, f), rows, cols) == dot_cells(
            transpose_cells(b, inner, cols),
            transpose_cells(a, rows, inner),
            inner,
            rows,
            zero,
            f,
        ),
{
    let lhs = transpose_cells(dot_cells(a, b, inner, cols, zero, f), rows, cols);
    let bt = transpose_cells(b, inner, cols);
    let at = transpose_cells(a, rows, inner);
    let rhs = dot_cells(bt, at, inner, rows, zero, f);
    assert forall|j: int| 0 <= j < cols implies lhs[j] =~= rhs[j] by {
        assert forall|i: int| 0 <= i < rows implies lhs[j][i] == rhs[j][i] by {
            lemma_fold_swap(f, zero, a[i], column(b, j), inner);
            assert(a[i].len() == inner);
            lemma_fold_prefix(f, zero, column(b, j), a[i], bt[j], column(at, i), inner);
        }
    }
    assert(lhs =~= rhs);
}

/// Combining with `f` and then with `g` against the same matrix gives back
/// the first matrix, cell for cell, wherever `g` undoes `f` exactly
/// (`g(f(x, y), y) == x`).
pub proof fn lemma_zip_round_trip<T, F: Fn(T, T) -> T, G: Fn(T, T) -> T>(
    a: Seq<Seq<T>>,
    b: Seq<Seq<T>>,
    rows: nat,
    cols: nat,
    f: F,
    g: G,
)
    requires
        has_shape(a, rows as int, cols as int),
        has_shape(b, rows as int, cols as int),
        forall|x: T, y: T| #[trigger] call2(g, call2(f, x, y), y) == x,
    ensures
        zip_cells(zip_cells(a, b, f), b, g) == a,
{
    let r = zip_cells(zip_cells(a, b, f), b, g);
    assert forall|i: int| 0 <= i < rows implies r[i] =~= a[i] by {
        assert forall|j: int| 0 <= j < cols implies r[i][j] == a[i][j] by {
            assert(call2(g, call2(f, a[i][j], b[i][j]), b[i][j]) == a[i][j]);
        }
    }
    assert(r =~= a);
}

} // verus!
