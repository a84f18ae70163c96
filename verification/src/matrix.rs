use vstd::prelude::*;

verus! {

use crate::errors::{CellFault, MatError};
use crate::render::{dec_digits, dec_of, push_i64, push_usize};
use crate::vector::{dot, dot_fits, dot_fits_prefix, dot_prefix, dot_product, lemma_dot_commutative, Vector};
use vstd::string::StringExecFns;

/// A dense matrix: a row-major flat buffer plus explicit extents. The
/// element at `(i, j)` lives at offset `i * cols + j`. Immutable after
/// construction: multiplication produces a new matrix.
#[derive(Debug)]
pub struct Matrix {
    /// Row-major flat buffer of the elements.
    pub data: Vec<i64>,
    /// Number of rows.
    pub rows: usize,
    /// Number of columns.
    pub cols: usize,
}

impl Matrix {
    /// The buffer holds exactly one element per cell.
    pub open spec fn wf(self) -> bool {
        self.data@.len() == self.rows * self.cols
    }

    /// The element at row `i`, column `j`.
    pub open spec fn cell(self, i: int, j: int) -> i64 {
        self.data@[i * self.cols + j]
    }

    /// Row `i` as a sequence.
    pub open spec fn row(self, i: int) -> Seq<i64> {
        self.data@.subrange(i * self.cols, i * self.cols + self.cols)
    }

    /// Column `j` as a sequence: the strided gather of every `cols`-th
    /// element starting at `j`.
    pub open spec fn col(self, j: int) -> Seq<i64> {
        Seq::new(self.rows as nat, |k: int| self.data@[k * self.cols + j])
    }

    /// Constructs a matrix from a flat row-major buffer and its extents.
    /// The caller asserts that the buffer length matches the extents.
    pub fn new(data: Vec<i64>, rows: usize, cols: usize) -> (r: Matrix)
        requires
            data@.len() == rows * cols,
        ensures
            r.data@ == data@,
            r.rows == rows,
            r.cols == cols,
            r.wf(),
    {
        Matrix { data, rows, cols }
    }

    /// The element at `(i, j)`, via the row-major offset formula.
    pub fn get(&self, i: usize, j: usize) -> (r: i64)
        requires
            self.wf(),
            i < self.rows,
            j < self.cols,
        ensures
            r == self.cell(i as int, j as int),
    {
        proof {
            vstd::std_specs::vec::axiom_spec_len(&self.data);
            lemma_cell_index(i as int, j as int, self.rows as int, self.cols as int);
        }
        self.data[i * self.cols + j]
    }

    /// An owned copy of row `i`.
    pub fn row_vector(&self, i: usize) -> (r: Vector)
        requires
            self.wf(),
            i < self.rows,
        ensures
            r@ == self.row(i as int),
            r@.len() == self.cols,
    {
        let mut out: Vec<i64> = Vec::new();
        let mut j: usize = 0;
        while j < self.cols
            invariant
                self.wf(),
                i < self.rows,
                j <= self.cols,
                out@.len() == j,
                forall|k: int|
                    0 <= k < j ==> out@[k] == self.data@[i * self.cols + k],
            decreases self.cols - j,
        {
            proof {
                vstd::std_specs::vec::axiom_spec_len(&self.data);
                lemma_cell_index(i as int, j as int, self.rows as int, self.cols as int);
            }
            out.push(self.data[i * self.cols + j]);
            j += 1;
        }
        let r = Vector::new(out);
        proof {
            lemma_row_bounds(i as int, self.rows as int, self.cols as int);
            assert(r@ =~= self.row(i as int));
        }
        r
    }

    /// An owned copy of column `j`: a strided gather, so no transposed
    /// matrix is materialized.
    pub fn col_vector(&self, j: usize) -> (r: Vector)
        requires
            self.wf(),
            j < self.cols,
        ensures
            r@ == self.col(j as int),
            r@.len() == self.rows,
    {
        let mut out: Vec<i64> = Vec::new();
        let mut k: usize = 0;
        while k < self.rows
            invariant
                self.wf(),
                j < self.cols,
                k <= self.rows,
                out@.len() == k,
                forall|m: int|
                    0 <= m < k ==> out@[m] == self.data@[m * self.cols + j],
            decreases self.rows - k,
        {
            proof {
                vstd::std_specs::vec::axiom_spec_len(&self.data);
                lemma_cell_index(k as int, j as int, self.rows as int, self.cols as int);
            }
            out.push(self.data[k * self.cols + j]);
            k += 1;
        }
        let r = Vector::new(out);
        proof {
            assert(r@ =~= self.col(j as int));
        }
        r
    }
}

/// The flat offset of cell `(i, j)` lies inside a `rows x cols` buffer.
pub(crate) proof fn lemma_cell_index(i: int, j: int, rows: int, cols: int)
    requires
        0 <= i < rows,
        0 <= j < cols,
    ensures
        0 <= i * cols + j < rows * cols,
{
    assert(0 <= i * cols + j < rows * cols) by (nonlinear_arith)
        requires
            0 <= i < rows,
            0 <= j < cols,
    ;
}

/// Row `i` ends no later than the buffer does.
pub(crate) proof fn lemma_row_bounds(i: int, rows: int, cols: int)
    requires
        0 <= i < rows,
        0 <= cols,
    ensures
        0 <= i * cols,
        i * cols + cols <= rows * cols,
{
    assert(0 <= i * cols && i * cols + cols <= rows * cols) by (nonlinear_arith)
        requires
            0 <= i < rows,
            0 <= cols,
    ;
}

/// Cells earlier in row-major order have a smaller flat offset.
pub(crate) proof fn lemma_rowmajor_order(p: int, q: int, i: int, j: int, cols: int)
    requires
        0 <= p,
        0 <= q < cols,
        0 <= j,
        p < i || (p == i && q < j),
    ensures
        p * cols + q < i * cols + j,
{
    assert(p * cols + q < i * cols + j) by (nonlinear_arith)
        requires
            0 <= p,
            0 <= q < cols,
            0 <= j,
            p < i || (p == i && q < j),
    ;
}

/// How many workers a multiplication of this output size gets: a coarse
/// policy trading parallelism against per-task overhead. Below 100 output
/// cells one worker, below 1000 two, otherwise four.
pub open spec fn thread_count_spec(rows: int, cols: int) -> int {
    if rows * cols < 100 {
        1
    } else if rows * cols < 1000 {
        2
    } else {
        4
    }
}

/// Sizes the worker pool from the output-cell count `rows * cols`.
pub fn calculate_thread_count(rows: usize, cols: usize) -> (r: usize)
    requires
        rows * cols <= usize::MAX,
    ensures
        r == thread_count_spec(rows as int, cols as int),
        1 <= r <= 4,
{
    let total = rows * cols;
    if total < 100 {
        1
    } else if total < 1000 {
        2
    } else {
        4
    }
}

/// Every output cell's dot product stays inside the `i64` range.
pub open spec fn mul_fits(a: Matrix, b: Matrix) -> bool {
    forall|i: int, j: int|
        0 <= i < a.rows && 0 <= j < b.cols ==> dot_fits(#[trigger] a.row(i), #[trigger] b.col(j))
}

/// `c` is the matrix product of `a` and `b`: the extents match and every
/// cell holds the dot product of the corresponding row of `a` and column
/// of `b`. Any two matrices satisfying this agree cell for cell, so the
/// product is deterministic however the per-cell work is scheduled.
pub open spec fn is_product(a: Matrix, b: Matrix, c: Matrix) -> bool {
    &&& c.wf()
    &&& c.rows == a.rows
    &&& c.cols == b.cols
    &&& forall|i: int, j: int|
        0 <= i < a.rows && 0 <= j < b.cols ==> #[trigger] c.cell(i, j) as int == dot(
            a.row(i),
            b.col(j),
        )
}

/// Cell `(i, j)` is the first one, in row-major enumeration order, whose
/// dot product leaves the `i64` range.
pub open spec fn first_bad_cell(a: Matrix, b: Matrix, i: int, j: int) -> bool {
    &&& 0 <= i < a.rows
    &&& 0 <= j < b.cols
    &&& !dot_fits(a.row(i), b.col(j))
    &&& forall|p: int, q: int|
        0 <= p < a.rows && 0 <= q < b.cols && (p < i || (p == i && q < j)) ==> dot_fits(
            #[trigger] a.row(p),
            #[trigger] b.col(q),
        )
}

/// Multiplies `a` by `b`, cell by cell in row-major order.
///
/// Fails with `DimensionMismatch` exactly when `a.cols != b.rows`, before
/// any cell is computed. Otherwise every output cell is the dot product of
/// its row of `a` and column of `b`; the first cell (in row-major order)
/// whose dot product leaves the `i64` range aborts the whole multiplication
/// with `ComputationError` carrying that cell's flat index and the fault.
pub fn multiply(a: &Matrix, b: &Matrix) -> (r: Result<Matrix, MatError>)
    requires
        a.wf(),
        b.wf(),
        a.cols == b.rows ==> a.rows * b.cols <= usize::MAX,
    ensures
        a.cols != b.rows ==> r == Err::<Matrix, MatError>(MatError::DimensionMismatch),
        a.cols == b.rows && mul_fits(*a, *b) ==> (r matches Ok(c) && is_product(*a, *b, c)),
        a.cols == b.rows && !mul_fits(*a, *b) ==> (r matches Err(e)
            && e matches MatError::ComputationError(idx, fault) && fault == CellFault::Overflow
            && exists|i: int, j: int| idx == i * b.cols + j && first_bad_cell(*a, *b, i, j)),
{
    if a.cols != b.rows {
        return Err(MatError::DimensionMismatch);
    }
    let total = a.rows * b.cols;
    let mut data: Vec<i64> = Vec::new();
    let mut t: usize = 0;
    while t < total
        invariant
            data@.len() == t,
            t <= total,
        decreases total - t,
    {
        data.push(0i64);
        t += 1;
    }
    let mut i: usize = 0;
    while i < a.rows
        invariant
            a.wf(),
            b.wf(),
            a.cols == b.rows,
            total == a.rows * b.cols,
            data@.len() == total,
            i <= a.rows,
            forall|p: int, q: int|
                0 <= p < i && 0 <= q < b.cols ==> dot_fits(#[trigger] a.row(p), #[trigger] b.col(q))
                    && data@[p * b.cols + q] as int == dot(a.row(p), b.col(q)),
        decreases a.rows - i,
    {
        let mut j: usize = 0;
        while j < b.cols
            invariant
                a.wf(),
                b.wf(),
                a.cols == b.rows,
                total == a.rows * b.cols,
                data@.len() == total,
                i < a.rows,
                j <= b.cols,
                forall|p: int, q: int|
                    0 <= p < i && 0 <= q < b.cols ==> dot_fits(
                        #[trigger] a.row(p),
                        #[trigger] b.col(q),
                    ) && data@[p * b.cols + q] as int == dot(a.row(p), b.col(q)),
                forall|q: int|
                    0 <= q < j ==> dot_fits(a.row(i as int), #[trigger] b.col(q)) && data@[i as int
                        * b.cols + q] as int == dot(a.row(i as int), b.col(q)),
            decreases b.cols - j,
        {
            proof {
                lemma_cell_index(i as int, j as int, a.rows as int, b.cols as int);
            }
            let row = a.row_vector(i);
            let col = b.col_vector(j);
            let idx = i * b.cols + j;
            match dot_product(row, col) {
                Ok(v) => {
                    data[idx] = v;
                    proof {
                        assert forall|p: int, q: int|
                            0 <= p < i && 0 <= q < b.cols implies dot_fits(
                            #[trigger] a.row(p),
                            #[trigger] b.col(q),
                        ) && data@[p * b.cols + q] as int == dot(a.row(p), b.col(q)) by {
                            lemma_rowmajor_order(p, q, i as int, j as int, b.cols as int);
                        }
                        assert forall|q: int|
                            0 <= q < j implies dot_fits(a.row(i as int), #[trigger] b.col(q))
                            && data@[i as int * b.cols + q] as int == dot(a.row(i as int), b.col(q)) by {
                            lemma_rowmajor_order(i as int, q, i as int, j as int, b.cols as int);
                        }
                    }
                },
                Err(_) => {
                    proof {
                        assert(!dot_fits(a.row(i as int), b.col(j as int)));
                        assert(first_bad_cell(*a, *b, i as int, j as int));
                        assert(!mul_fits(*a, *b));
                    }
                    return Err(MatError::ComputationError(idx, CellFault::Overflow));
                },
            }
            j += 1;
        }
        i += 1;
    }
    let c = Matrix { data, rows: a.rows, cols: b.cols };
    proof {
        assert(mul_fits(*a, *b));
        assert(is_product(*a, *b, c));
    }
    Ok(c)
}

/// Row `i` of `m` rendered up to column `j`: decimal cell values joined by
/// single spaces.
pub open spec fn row_prefix_str(m: Matrix, i: int, j: int) -> Seq<char>
    decreases j,
{
    if j <= 0 {
        Seq::empty()
    } else if j == 1 {
        dec_of(m.cell(i, 0) as int)
    } else {
        row_prefix_str(m, i, j - 1) + " "@ + dec_of(m.cell(i, j - 1) as int)
    }
}

/// The first `i` rows of `m` rendered and joined by `", "`.
pub open spec fn rows_prefix_str(m: Matrix, i: int) -> Seq<char>
    decreases i,
{
    if i <= 0 {
        Seq::empty()
    } else if i == 1 {
        row_prefix_str(m, 0, m.cols as int)
    } else {
        rows_prefix_str(m, i - 1) + ", "@ + row_prefix_str(m, i - 1, m.cols as int)
    }
}

/// The bracketed, row-grouped textual form of `m`: rows separated by
/// `", "`, elements within a row separated by a single space.
pub open spec fn render_spec(m: Matrix) -> Seq<char> {
    "{"@ + rows_prefix_str(m, m.rows as int) + "}"@
}

/// The diagnostic form of `m`: its extents, then its rendered cells.
pub open spec fn render_debug_spec(m: Matrix) -> Seq<char> {
    "Matrix { rows: "@ + dec_digits(m.rows as int) + ", cols: "@ + dec_digits(m.cols as int)
        + ", data: "@ + render_spec(m) + " }"@
}

impl Matrix {
    /// Renders the matrix, e.g. a 2x2 of `7 10 15 22` as `{7 10, 15 22}`.
    pub fn render(&self) -> (r: String)
        requires
            self.wf(),
        ensures
            r@ == render_spec(*self),
    {
        let mut s = String::new();
        s.append("{");
        let mut i: usize = 0;
        while i < self.rows
            invariant
                self.wf(),
                i <= self.rows,
                s@ == "{"@ + rows_prefix_str(*self, i as int),
            decreases self.rows - i,
        {
            if i > 0 {
                s.append(", ");
            }
            let ghost head = s@;
            let mut j: usize = 0;
            while j < self.cols
                invariant
                    self.wf(),
                    i < self.rows,
                    j <= self.cols,
                    s@ == head + row_prefix_str(*self, i as int, j as int),
                decreases self.cols - j,
            {
                if j > 0 {
                    s.append(" ");
                }
                push_i64(&mut s, self.get(i, j));
                proof {
                    assert(s@ =~= head + row_prefix_str(*self, i as int, j + 1));
                }
                j += 1;
            }
            proof {
                assert(s@ =~= "{"@ + rows_prefix_str(*self, i + 1));
            }
            i += 1;
        }
        s.append("}");
        proof {
            assert(s@ =~= render_spec(*self));
        }
        s
    }

    /// Renders the matrix with its extents, e.g.
    /// `Matrix { rows: 2, cols: 2, data: {7 10, 15 22} }`.
    pub fn render_debug(&self) -> (r: String)
        requires
            self.wf(),
        ensures
            r@ == render_debug_spec(*self),
    {
        let mut s = String::new();
        s.append("Matrix { rows: ");
        push_usize(&mut s, self.rows);
        s.append(", cols: ");
        push_usize(&mut s, self.cols);
        s.append(", data: ");
        let body = self.render();
        s.append(body.as_str());
        s.append(" }");
        proof {
            assert(s@ =~= render_debug_spec(*self));
        }
        s
    }
}

/// A flat cell offset splits into a row index below `rows` and a column
/// index below `cols`.
pub(crate) proof fn lemma_flat_split(n: int, rows: int, cols: int)
    requires
        0 <= n,
        0 <= rows,
        n < rows * cols,
    ensures
        0 < cols,
        0 <= n / cols < rows,
        0 <= n % cols < cols,
{
    if cols <= 0 {
        assert(rows * cols <= 0) by (nonlinear_arith)
            requires
                0 <= rows,
                cols <= 0,
        ;
    }
    vstd::arithmetic::div_mod::lemma_fundamental_div_mod(n, cols);
    vstd::arithmetic::div_mod::lemma_mod_bound(n, cols);
    let q = n / cols;
    let r = n % cols;
    assert(0 <= q < rows) by (nonlinear_arith)
        requires
            n == cols * q + r,
            0 <= r < cols,
            0 <= n,
            n < rows * cols,
    ;
}

/// `m` is an identity matrix: square, with ones on the diagonal and zeros
/// everywhere else.
pub open spec fn is_identity(m: Matrix) -> bool {
    &&& m.wf()
    &&& m.rows == m.cols
    &&& forall|i: int, j: int|
        0 <= i < m.rows && 0 <= j < m.cols ==> #[trigger] m.cell(i, j) == (if i == j {
            1i64
        } else {
            0i64
        })
}

/// Builds the identity matrix of size `n`.
pub fn identity(n: usize) -> (r: Matrix)
    requires
        n * n <= usize::MAX,
    ensures
        r.rows == n,
        r.cols == n,
        is_identity(r),
{
    let total = n * n;
    let mut data: Vec<i64> = Vec::new();
    let mut t: usize = 0;
    while t < total
        invariant
            total == n * n,
            t <= total,
            data@.len() == t,
            forall|m: int|
                0 <= m < t ==> #[trigger] data@[m] == (if m / n as int == m % n as int {
                    1i64
                } else {
                    0i64
                }),
        decreases total - t,
    {
        proof {
            lemma_flat_split(t as int, n as int, n as int);
        }
        let i = t / n;
        let j = t % n;
        let ghost data0 = data@;
        if i == j {
            data.push(1i64);
        } else {
            data.push(0i64);
        }
        proof {
            assert forall|m: int|
                0 <= m < t + 1 implies #[trigger] data@[m] == (if m / n as int == m % n as int {
                1i64
            } else {
                0i64
            }) by {
                if m < t {
                    assert(data@[m] == data0[m]);
                }
            }
        }
        t += 1;
    }
    let r = Matrix { data, rows: n, cols: n };
    proof {
        assert forall|i: int, j: int|
            0 <= i < r.rows && 0 <= j < r.cols implies #[trigger] r.cell(i, j) == (if i == j {
            1i64
        } else {
            0i64
        }) by {
            lemma_cell_index(i, j, n as int, n as int);
            let m = i * n + j;
            vstd::arithmetic::div_mod::lemma_fundamental_div_mod_converse(m, n as int, i, j);
            assert(r.data@[m] == (if m / n as int == m % n as int {
                1i64
            } else {
                0i64
            }));
        }
    }
    r
}

/// Dot product against a unit vector picks out one coordinate; every step
/// of the computation fits in `i64`.
proof fn lemma_dot_unit(u: Seq<i64>, v: Seq<i64>, j: int, n: int)
    requires
        u.len() == v.len(),
        0 <= j < u.len(),
        0 <= n <= u.len(),
        forall|k: int| 0 <= k < v.len() ==> #[trigger] v[k] == (if k == j {
            1i64
        } else {
            0i64
        }),
    ensures
        dot_prefix(u, v, n) == if n > j {
            u[j] as int
        } else {
            0
        },
        dot_fits_prefix(u, v, n),
    decreases n,
{
    if n > 0 {
        lemma_dot_unit(u, v, j, n - 1);
    }
}

/// Multiplying by an identity matrix on the right gives back the original:
/// every cell's dot product fits in `i64`, and any product of `a` with the
/// identity has exactly `a`'s buffer.
pub proof fn lemma_identity_right(a: Matrix, e: Matrix)
    requires
        a.wf(),
        is_identity(e),
        e.rows == a.cols,
    ensures
        mul_fits(a, e),
        forall|c: Matrix| #[trigger] is_product(a, e, c) ==> c.data@ == a.data@,
{
    assert forall|i: int, j: int|
        0 <= i < a.rows && 0 <= j < e.cols implies dot_fits(#[trigger] a.row(i), #[trigger] e.col(j))
        && dot(a.row(i), e.col(j)) == a.cell(i, j) as int by {
        lemma_row_bounds(i, a.rows as int, a.cols as int);
        assert forall|k: int| 0 <= k < e.col(j).len() implies #[trigger] e.col(j)[k] == (if k == j {
            1i64
        } else {
            0i64
        }) by {
            lemma_cell_index(k, j, e.rows as int, e.cols as int);
            assert(e.col(j)[k] == e.cell(k, j));
        }
        lemma_dot_unit(a.row(i), e.col(j), j, a.cols as int);
        assert(a.row(i)[j] == a.cell(i, j));
    }
    assert forall|c: Matrix| #[trigger] is_product(a, e, c) implies c.data@ == a.data@ by {
        assert(c.data@.len() == a.rows * a.cols);
        assert(a.data@.len() == a.rows * a.cols);
        assert forall|m: int| 0 <= m < c.data@.len() implies c.data@[m] == a.data@[m] by {
            lemma_flat_split(m, a.rows as int, a.cols as int);
            let i = m / (a.cols as int);
            let j = m % (a.cols as int);
            vstd::arithmetic::div_mod::lemma_fundamental_div_mod(m, a.cols as int);
            assert(m == i * (a.cols as int) + j);
            assert(c.data@[m] == c.cell(i, j));
            assert(a.data@[m] == a.cell(i, j));
            assert(c.cell(i, j) as int == dot(a.row(i), e.col(j)));
            assert(dot_fits(a.row(i), e.col(j)) && dot(a.row(i), e.col(j)) == a.cell(i, j) as int);
        }
        assert(c.data@ =~= a.data@);
    }
}

/// Multiplying by an identity matrix on the left gives back the original:
/// every cell's dot product fits in `i64`, and any product of the identity
/// with `b` has exactly `b`'s buffer.
pub proof fn lemma_identity_left(e: Matrix, b: Matrix)
    requires
        b.wf(),
        is_identity(e),
        e.cols == b.rows,
    ensures
        mul_fits(e, b),
        forall|c: Matrix| #[trigger] is_product(e, b, c) ==> c.data@ == b.data@,
{
    assert forall|i: int, j: int|
        0 <= i < e.rows && 0 <= j < b.cols implies dot_fits(#[trigger] e.row(i), #[trigger] b.col(j))
        && dot(e.row(i), b.col(j)) == b.cell(i, j) as int by {
        lemma_row_bounds(i, e.rows as int, e.cols as int);
        assert forall|k: int| 0 <= k < e.row(i).len() implies #[trigger] e.row(i)[k] == (if k == i {
            1i64
        } else {
            0i64
        }) by {
            assert(e.row(i)[k] == e.cell(i, k));
        }
        lemma_dot_commutative(e.row(i), b.col(j));
        lemma_dot_unit(b.col(j), e.row(i), i, b.rows as int);
        assert(b.col(j)[i] == b.cell(i, j));
    }
    assert forall|c: Matrix| #[trigger] is_product(e, b, c) implies c.data@ == b.data@ by {
        assert(c.data@.len() == b.rows * b.cols);
        assert(b.data@.len() == b.rows * b.cols);
        assert forall|m: int| 0 <= m < c.data@.len() implies c.data@[m] == b.data@[m] by {
            lemma_flat_split(m, b.rows as int, b.cols as int);
            let i = m / (b.cols as int);
            let j = m % (b.cols as int);
            vstd::arithmetic::div_mod::lemma_fundamental_div_mod(m, b.cols as int);
            assert(m == i * (b.cols as int) + j);
            assert(c.data@[m] == c.cell(i, j));
            assert(b.data@[m] == b.cell(i, j));
            assert(c.cell(i, j) as int == dot(e.row(i), b.col(j)));
            assert(dot_fits(e.row(i), b.col(j)) && dot(e.row(i), b.col(j)) == b.cell(i, j) as int);
        }
        assert(c.data@ =~= b.data@);
    }
}

/// The product of two matrices is unique: any two results that satisfy the
/// product relation agree in extents and cell for cell. The parallel path
/// and the single-threaded path therefore return the same matrix, whatever
/// the worker-pool size and however the scheduler interleaves the workers.
pub proof fn lemma_product_unique(a: Matrix, b: Matrix, c1: Matrix, c2: Matrix)
    requires
        a.wf(),
        b.wf(),
        is_product(a, b, c1),
        is_product(a, b, c2),
    ensures
        c1.rows == c2.rows,
        c1.cols == c2.cols,
        c1.data@ == c2.data@,
{
    assert forall|n: int| 0 <= n < c1.data@.len() implies c1.data@[n] == c2.data@[n] by {
        let i = n / (b.cols as int);
        let j = n % (b.cols as int);
        if b.cols > 0 {
            vstd::arithmetic::div_mod::lemma_fundamental_div_mod(n, b.cols as int);
            vstd::arithmetic::div_mod::lemma_mod_bound(n, b.cols as int);
            assert(0 <= i < a.rows) by (nonlinear_arith)
                requires
                    n == i * b.cols + j,
                    0 <= j < b.cols,
                    0 <= n < a.rows * b.cols,
            ;
            assert(c1.cell(i, j) as int == dot(a.row(i), b.col(j)));
            assert(c2.cell(i, j) as int == dot(a.row(i), b.col(j)));
        }
    }
    assert(c1.data@ =~= c2.data@);
}

} // verus!
