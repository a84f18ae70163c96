use vstd::prelude::*;

verus! {

use crate::matrix::{is_product, lemma_flat_split, lemma_row_bounds, Matrix};
use crate::vector::{dot, dot_prefix};

/// The sum `f(0) + f(1) + ... + f(n - 1)`.
pub open spec fn sum(n: int, f: spec_fn(int) -> int) -> int
    decreases n,
{
    if n <= 0 {
        0
    } else {
        sum(n - 1, f) + f(n - 1)
    }
}

/// Summands that agree on the range give the same sum.
proof fn lemma_sum_ext(n: int, f: spec_fn(int) -> int, g: spec_fn(int) -> int)
    requires
        forall|k: int| 0 <= k < n ==> #[trigger] f(k) == g(k),
    ensures
        sum(n, f) == sum(n, g),
    decreases n,
{
    if n > 0 {
        lemma_sum_ext(n - 1, f, g);
    }
}

/// A constant right factor moves out of a sum.
proof fn lemma_sum_scale_right(n: int, f: spec_fn(int) -> int, c: int, g: spec_fn(int) -> int)
    requires
        forall|k: int| 0 <= k < n ==> #[trigger] g(k) == f(k) * c,
    ensures
        sum(n, g) == sum(n, f) * c,
    decreases n,
{
    if n <= 0 {
    } else {
        lemma_sum_scale_right(n - 1, f, c, g);
        assert(sum(n - 1, f) * c + f(n - 1) * c == (sum(n - 1, f) + f(n - 1)) * c)
            by (nonlinear_arith);
    }
}

/// A constant left factor moves out of a sum.
proof fn lemma_sum_scale_left(n: int, f: spec_fn(int) -> int, c: int, g: spec_fn(int) -> int)
    requires
        forall|k: int| 0 <= k < n ==> #[trigger] g(k) == c * f(k),
    ensures
        sum(n, g) == c * sum(n, f),
    decreases n,
{
    if n <= 0 {
    } else {
        lemma_sum_scale_left(n - 1, f, c, g);
        assert(c * sum(n - 1, f) + c * f(n - 1) == c * (sum(n - 1, f) + f(n - 1)))
            by (nonlinear_arith);
    }
}

/// Sums distribute over pointwise addition of summands.
proof fn lemma_sum_add(
    n: int,
    f: spec_fn(int) -> int,
    g: spec_fn(int) -> int,
    h: spec_fn(int) -> int,
)
    requires
        forall|k: int| 0 <= k < n ==> #[trigger] h(k) == f(k) + g(k),
    ensures
        sum(n, h) == sum(n, f) + sum(n, g),
    decreases n,
{
    if n > 0 {
        lemma_sum_add(n - 1, f, g, h);
    }
}

/// A sum of zeros is zero.
proof fn lemma_sum_zero(n: int, f: spec_fn(int) -> int)
    requires
        forall|k: int| 0 <= k < n ==> #[trigger] f(k) == 0,
    ensures
        sum(n, f) == 0,
    decreases n,
{
    if n > 0 {
        lemma_sum_zero(n - 1, f);
    }
}

/// A finite double sum can be taken in either order.
proof fn lemma_sum_exchange(
    n: int,
    m: int,
    grid: spec_fn(int, int) -> int,
    rows: spec_fn(int) -> int,
    cols: spec_fn(int) -> int,
)
    requires
        forall|k: int| 0 <= k < n ==> #[trigger] rows(k) == sum(m, |l: int| grid(k, l)),
        forall|l: int| 0 <= l < m ==> #[trigger] cols(l) == sum(n, |k: int| grid(k, l)),
    ensures
        sum(n, rows) == sum(m, cols),
    decreases n,
{
    if n <= 0 {
        assert forall|l: int| 0 <= l < m implies #[trigger] cols(l) == 0 by {
            lemma_sum_zero(n, |k: int| grid(k, l));
        }
        lemma_sum_zero(m, cols);
    } else {
        let shorter = |l: int| sum(n - 1, |k: int| grid(k, l));
        lemma_sum_exchange(n - 1, m, grid, rows, shorter);
        let last_row = |l: int| grid(n - 1, l);
        assert forall|l: int| 0 <= l < m implies #[trigger] cols(l) == shorter(l) + last_row(
            l,
        ) by {
            assert(sum(n, |k: int| grid(k, l)) == sum(n - 1, |k: int| grid(k, l)) + grid(n - 1, l));
        }
        lemma_sum_add(m, shorter, last_row, cols);
        assert(rows(n - 1) == sum(m, last_row)) by {
            lemma_sum_ext(m, |l: int| grid(n - 1, l), last_row);
        }
    }
}

/// A dot-product prefix is the sum of the element-wise products.
proof fn lemma_dot_as_sum(u: Seq<i64>, v: Seq<i64>, n: int, f: spec_fn(int) -> int)
    requires
        forall|k: int| 0 <= k < n ==> #[trigger] f(k) == u[k] * v[k],
    ensures
        dot_prefix(u, v, n) == sum(n, f),
    decreases n,
{
    if n > 0 {
        lemma_dot_as_sum(u, v, n - 1, f);
    }
}

/// One cell of the associativity argument: with `ab` and `bc` the two
/// inner products, the dot product of row `i` of `ab` with column `j` of
/// `c` equals that of row `i` of `a` with column `j` of `bc`.
proof fn lemma_assoc_cell(a: Matrix, b: Matrix, c: Matrix, ab: Matrix, bc: Matrix, i: int, j: int)
    requires
        a.wf(),
        b.wf(),
        c.wf(),
        a.cols == b.rows,
        b.cols == c.rows,
        is_product(a, b, ab),
        is_product(b, c, bc),
        0 <= i < a.rows,
        0 <= j < c.cols,
    ensures
        dot(ab.row(i), c.col(j)) == dot(a.row(i), bc.col(j)),
{
    let q = a.cols as int;
    let r = b.cols as int;
    lemma_row_bounds(i, a.rows as int, a.cols as int);
    lemma_row_bounds(i, ab.rows as int, ab.cols as int);
    assert(a.row(i).len() == q);
    assert(ab.row(i).len() == r);
    // Left association, written as a sum over the middle index k.
    let fk = |k: int| (ab.cell(i, k) as int) * (c.cell(k, j) as int);
    assert forall|k: int| 0 <= k < r implies #[trigger] fk(k) == ab.row(i)[k] * c.col(j)[k] by {
        lemma_row_bounds(i, ab.rows as int, ab.cols as int);
        assert(ab.row(i)[k] == ab.cell(i, k));
        assert(c.col(j)[k] == c.cell(k, j));
    }
    assert(ab.row(i).len() == r);
    lemma_dot_as_sum(ab.row(i), c.col(j), r, fk);
    assert(dot(ab.row(i), c.col(j)) == sum(r, fk));
    // Expand each ab cell into its own sum and push the c factor inside.
    let grid = |k: int, l: int| (a.cell(i, l) as int) * (b.cell(l, k) as int) * (c.cell(k, j)
        as int);
    let mid1 = |k: int| sum(q, |l: int| grid(k, l));
    assert forall|k: int| 0 <= k < r implies #[trigger] fk(k) == mid1(k) by {
        let fl = |l: int| (a.cell(i, l) as int) * (b.cell(l, k) as int);
        assert forall|l: int| 0 <= l < q implies #[trigger] fl(l) == a.row(i)[l] * b.col(k)[l] by {
            lemma_row_bounds(i, a.rows as int, a.cols as int);
            assert(a.row(i)[l] == a.cell(i, l));
            assert(b.col(k)[l] == b.cell(l, k));
        }
        lemma_dot_as_sum(a.row(i), b.col(k), q, fl);
        assert(dot(a.row(i), b.col(k)) == dot_prefix(a.row(i), b.col(k), q));
        assert(ab.cell(i, k) as int == dot(a.row(i), b.col(k)));
        assert(ab.cell(i, k) as int == sum(q, fl));
        assert forall|l: int| 0 <= l < q implies #[trigger] grid(k, l) == fl(l) * (c.cell(k, j)
            as int) by {
            assert(grid(k, l) == fl(l) * (c.cell(k, j) as int)) by (nonlinear_arith)
                requires
                    grid(k, l) == (a.cell(i, l) as int) * (b.cell(l, k) as int) * (c.cell(k, j)
                        as int),
                    fl(l) == (a.cell(i, l) as int) * (b.cell(l, k) as int),
            ;
        }
        lemma_sum_scale_right(q, fl, c.cell(k, j) as int, |l: int| grid(k, l));
        assert(sum(q, |l: int| grid(k, l)) == sum(q, fl) * (c.cell(k, j) as int));
    }
    lemma_sum_ext(r, fk, mid1);
    // Swap the two summation orders.
    let mid2 = |l: int| sum(r, |k: int| grid(k, l));
    lemma_sum_exchange(r, q, grid, mid1, mid2);
    // Factor the a cell out of each inner sum.
    let gl = |l: int| (a.cell(i, l) as int) * (bc.cell(l, j) as int);
    assert forall|l: int| 0 <= l < q implies #[trigger] mid2(l) == gl(l) by {
        let hk = |k: int| (b.cell(l, k) as int) * (c.cell(k, j) as int);
        assert forall|k: int| 0 <= k < r implies #[trigger] hk(k) == b.row(l)[k] * c.col(j)[k] by {
            lemma_row_bounds(l, b.rows as int, b.cols as int);
            assert(b.row(l)[k] == b.cell(l, k));
            assert(c.col(j)[k] == c.cell(k, j));
        }
        lemma_row_bounds(l, b.rows as int, b.cols as int);
        assert(b.row(l).len() == r);
        lemma_dot_as_sum(b.row(l), c.col(j), r, hk);
        assert(dot(b.row(l), c.col(j)) == dot_prefix(b.row(l), c.col(j), r));
        assert(bc.cell(l, j) as int == dot(b.row(l), c.col(j)));
        assert(bc.cell(l, j) as int == sum(r, hk));
        assert forall|k: int| 0 <= k < r implies #[trigger] grid(k, l) == (a.cell(i, l) as int)
            * hk(k) by {
            assert(grid(k, l) == (a.cell(i, l) as int) * hk(k)) by (nonlinear_arith)
                requires
                    grid(k, l) == (a.cell(i, l) as int) * (b.cell(l, k) as int) * (c.cell(k, j)
                        as int),
                    hk(k) == (b.cell(l, k) as int) * (c.cell(k, j) as int),
            ;
        }
        lemma_sum_scale_left(r, hk, a.cell(i, l) as int, |k: int| grid(k, l));
        assert(sum(r, |k: int| grid(k, l)) == (a.cell(i, l) as int) * sum(r, hk));
    }
    lemma_sum_ext(q, mid2, gl);
    // Fold the right association back into a dot product.
    assert forall|l: int| 0 <= l < q implies #[trigger] gl(l) == a.row(i)[l] * bc.col(j)[l] by {
        lemma_row_bounds(i, a.rows as int, a.cols as int);
        assert(a.row(i)[l] == a.cell(i, l));
        assert(bc.col(j)[l] == bc.cell(l, j));
    }
    lemma_dot_as_sum(a.row(i), bc.col(j), q, gl);
    assert(a.row(i).len() == q);
    assert(dot(a.row(i), bc.col(j)) == sum(q, gl));
}

/// Matrix multiplication is associative: for compatible operands, a
/// product computed as `(A x B) x C` agrees, extent for extent and cell
/// for cell, with one computed as `A x (B x C)`.
pub proof fn lemma_mul_associative(
    a: Matrix,
    b: Matrix,
    c: Matrix,
    ab: Matrix,
    bc: Matrix,
    abc_left: Matrix,
    abc_right: Matrix,
)
    requires
        a.wf(),
        b.wf(),
        c.wf(),
        a.cols == b.rows,
        b.cols == c.rows,
        is_product(a, b, ab),
        is_product(b, c, bc),
        is_product(ab, c, abc_left),
        is_product(a, bc, abc_right),
    ensures
        abc_left.rows == abc_right.rows,
        abc_left.cols == abc_right.cols,
        abc_left.data@ == abc_right.data@,
{
    assert(abc_left.data@.len() == a.rows * c.cols);
    assert(abc_right.data@.len() == a.rows * c.cols);
    assert forall|m: int| 0 <= m < abc_left.data@.len() implies abc_left.data@[m]
        == abc_right.data@[m] by {
        lemma_flat_split(m, a.rows as int, c.cols as int);
        let i = m / (c.cols as int);
        let j = m % (c.cols as int);
        vstd::arithmetic::div_mod::lemma_fundamental_div_mod(m, c.cols as int);
        assert(m == i * (c.cols as int) + j);
        assert(abc_left.data@[m] == abc_left.cell(i, j));
        assert(abc_right.data@[m] == abc_right.cell(i, j));
        assert(abc_left.cell(i, j) as int == dot(ab.row(i), c.col(j)));
        assert(abc_right.cell(i, j) as int == dot(a.row(i), bc.col(j)));
        lemma_assoc_cell(a, b, c, ab, bc, i, j);
    }
    assert(abc_left.data@ =~= abc_right.data@);
}

} // verus!
