use vstd::prelude::*;

verus! {

use crate::errors::{CellFault, MatError};
use crate::matrix::{first_bad_cell, is_product, lemma_cell_index, lemma_flat_split, lemma_product_unique, lemma_rowmajor_order, mul_fits, Matrix};
use crate::vector::{dot, dot_fits, Vector};

/// One unit of dispatched work: the flat index of an output cell together
/// with owned copies of the row and column whose dot product fills that
/// cell. The single-use result channel that travels with a task belongs to
/// the unverified runner, which pairs one with each task it dispatches.
#[derive(Debug)]
pub struct CellTask {
    /// Flat row-major index of the output cell.
    pub idx: usize,
    /// An owned copy of the relevant row of the left operand.
    pub row: Vector,
    /// An owned copy of the relevant column of the right operand.
    pub col: Vector,
}

/// `ts` covers every output cell of `a * b` exactly once, in row-major
/// enumeration order: the task at flat position `n` carries that index,
/// row `n / b.cols` of `a` and column `n % b.cols` of `b`.
pub open spec fn tasks_for(a: Matrix, b: Matrix, ts: Seq<CellTask>) -> bool {
    &&& ts.len() == a.rows * b.cols
    &&& forall|n: int|
        0 <= n < ts.len() ==> (#[trigger] ts[n]).idx == n && ts[n].row@ == a.row(
            n / b.cols as int,
        ) && ts[n].col@ == b.col(n % b.cols as int)
}

/// Reads a task list cell-wise: the task for output cell `(i, j)` sits at
/// position `i * b.cols + j` and carries row `i` of `a` and column `j` of
/// `b`.
pub proof fn lemma_task_at(a: Matrix, b: Matrix, ts: Seq<CellTask>, i: int, j: int)
    requires
        tasks_for(a, b, ts),
        0 <= i < a.rows,
        0 <= j < b.cols,
    ensures
        0 <= i * b.cols + j < ts.len(),
        ts[i * b.cols + j].idx == i * b.cols + j,
        ts[i * b.cols + j].row@ == a.row(i),
        ts[i * b.cols + j].col@ == b.col(j),
{
    lemma_cell_index(i, j, a.rows as int, b.cols as int);
    let n = i * b.cols + j;
    vstd::arithmetic::div_mod::lemma_fundamental_div_mod_converse(n, b.cols as int, i, j);
    assert((#[trigger] ts[n]).idx == n && ts[n].row@ == a.row(n / b.cols as int) && ts[n].col@
        == b.col(n % b.cols as int));
}

/// Validates the operand shapes and partitions the output-cell space into
/// one task per cell, in row-major order. Fails with `DimensionMismatch`
/// exactly when `a.cols != b.rows`, in which case no task is built.
pub fn plan_tasks(a: &Matrix, b: &Matrix) -> (r: Result<Vec<CellTask>, MatError>)
    requires
        a.wf(),
        b.wf(),
        a.cols == b.rows ==> a.rows * b.cols <= usize::MAX,
    ensures
        a.cols != b.rows ==> r == Err::<Vec<CellTask>, MatError>(MatError::DimensionMismatch),
        a.cols == b.rows ==> (r matches Ok(ts) && tasks_for(*a, *b, ts@)),
{
    if a.cols != b.rows {
        return Err(MatError::DimensionMismatch);
    }
    let total = a.rows * b.cols;
    let mut ts: Vec<CellTask> = Vec::new();
    let mut idx: usize = 0;
    while idx < total
        invariant
            a.wf(),
            b.wf(),
            a.cols == b.rows,
            total == a.rows * b.cols,
            idx <= total,
            ts@.len() == idx,
            forall|n: int|
                0 <= n < idx ==> (#[trigger] ts@[n]).idx == n && ts@[n].row@ == a.row(
                    n / b.cols as int,
                ) && ts@[n].col@ == b.col(n % b.cols as int),
        decreases total - idx,
    {
        let i = idx / b.cols;
        let j = idx % b.cols;
        proof {
            lemma_flat_split(idx as int, a.rows as int, b.cols as int);
        }
        let row = a.row_vector(i);
        let col = b.col_vector(j);
        let t = CellTask { idx, row, col };
        let ghost ts0 = ts@;
        let ghost t0 = t;
        ts.push(t);
        proof {
            assert forall|n: int|
                0 <= n < idx + 1 implies (#[trigger] ts@[n]).idx == n && ts@[n].row@ == a.row(
                n / b.cols as int,
            ) && ts@[n].col@ == b.col(n % b.cols as int) by {
                if n < idx {
                    assert(ts@[n] == ts0[n]);
                } else {
                    assert(ts@[n] == t0);
                }
            }
        }
        idx += 1;
    }
    Ok(ts)
}

/// Routes the output cell at flat index `idx` to a worker queue:
/// round-robin by cell index modulo the pool size.
pub fn worker_for(idx: usize, workers: usize) -> (r: usize)
    requires
        workers >= 1,
    ensures
        r == idx as int % workers as int,
        r < workers,
{
    idx % workers
}

/// Drains per-cell results in the order their tasks were created — not the
/// order workers finish — writing each success into the output buffer at
/// its recorded offset. The first faulty entry short-circuits collection
/// and comes back as `ComputationError` carrying that cell's flat index
/// and its fault; every entry before it was a success.
pub fn collect_results(rows: usize, cols: usize, results: Vec<Result<i64, CellFault>>) -> (r:
    Result<Matrix, MatError>)
    requires
        results@.len() == rows * cols,
    ensures
        (forall|n: int| 0 <= n < results@.len() ==> results@[n] is Ok) ==> (r matches Ok(m)
            && m.wf() && m.rows == rows && m.cols == cols && forall|n: int|
            0 <= n < results@.len() ==> (#[trigger] results@[n] matches Ok(v) && m.data@[n] == v)),
        (exists|n: int| 0 <= n < results@.len() && results@[n] is Err) ==> (r matches Err(e)
            && exists|n: int|
            0 <= n < results@.len() && (#[trigger] results@[n] matches Err(f) && e
                == MatError::ComputationError(n as usize, f)) && forall|k: int|
                0 <= k < n ==> results@[k] is Ok),
{
    let mut data: Vec<i64> = Vec::new();
    let mut n: usize = 0;
    let total = results.len();
    while n < total
        invariant
            total == results@.len(),
            n <= total,
            data@.len() == n,
            forall|k: int| 0 <= k < n ==> (#[trigger] results@[k] matches Ok(v) && data@[k] == v),
        decreases total - n,
    {
        match results[n] {
            Ok(v) => {
                data.push(v);
            },
            Err(f) => {
                return Err(MatError::ComputationError(n, f));
            },
        }
        n += 1;
    }
    Ok(Matrix { data, rows, cols })
}

/// Results computed correctly per task: the entry for each output cell
/// holds the dot product of that cell's row and column.
pub open spec fn results_correct(a: Matrix, b: Matrix, results: Seq<Result<i64, CellFault>>) -> bool {
    &&& results.len() == a.rows * b.cols
    &&& forall|i: int, j: int|
        0 <= i < a.rows && 0 <= j < b.cols ==> (#[trigger] results[i * b.cols + j] matches Ok(v)
            && v as int == dot(a.row(i), b.col(j)))
}

/// Fan-in is faithful: a result list in which every cell's entry is the dot
/// product of that cell assembles — in creation order, at the recorded
/// offsets — into exactly the product matrix. Together with
/// `lemma_product_unique` this says the parallel path agrees with the
/// single-threaded one, whatever the pool size.
pub proof fn lemma_collected_is_product(
    a: Matrix,
    b: Matrix,
    results: Seq<Result<i64, CellFault>>,
    m: Matrix,
)
    requires
        a.wf(),
        b.wf(),
        a.cols == b.rows,
        results_correct(a, b, results),
        m.wf(),
        m.rows == a.rows,
        m.cols == b.cols,
        forall|n: int| 0 <= n < results.len() ==> (#[trigger] results[n] matches Ok(v) && m.data@[n] == v),
    ensures
        is_product(a, b, m),
{
    assert forall|i: int, j: int|
        0 <= i < a.rows && 0 <= j < b.cols implies #[trigger] m.cell(i, j) as int == dot(
        a.row(i),
        b.col(j),
    ) by {
        lemma_cell_index(i, j, a.rows as int, b.cols as int);
        assert(a.row(i) == a.row(i) && b.col(j) == b.col(j));
        assert(results[i * b.cols + j] matches Ok(v) && v as int == dot(a.row(i), b.col(j)));
    }
}

/// Determinism under concurrency: a matrix assembled from correct
/// per-cell results — in creation order, at the recorded offsets — agrees,
/// extent for extent and cell for cell, with any matrix satisfying the
/// product relation, in particular with the single-threaded multiply's
/// result. Neither side mentions the pool size, so the answer is the same
/// for one, two or four workers and under any scheduling.
pub proof fn lemma_parallel_equals_sequential(
    a: Matrix,
    b: Matrix,
    results: Seq<Result<i64, CellFault>>,
    collected: Matrix,
    sequential: Matrix,
)
    requires
        a.wf(),
        b.wf(),
        a.cols == b.rows,
        results_correct(a, b, results),
        collected.wf(),
        collected.rows == a.rows,
        collected.cols == b.cols,
        forall|n: int|
            0 <= n < results.len() ==> (#[trigger] results[n] matches Ok(v) && collected.data@[n]
                == v),
        is_product(a, b, sequential),
    ensures
        collected.rows == sequential.rows,
        collected.cols == sequential.cols,
        collected.data@ == sequential.data@,
{
    lemma_collected_is_product(a, b, results, collected);
    lemma_product_unique(a, b, collected, sequential);
}

/// What a faithful worker reports for every cell, fit or not: the dot
/// product of the cell's row and column where it stays in `i64`, an
/// overflow fault where it does not — exactly what `dot_product` returns
/// on the cell's equal-length operands.
pub open spec fn results_faithful(a: Matrix, b: Matrix, results: Seq<Result<i64, CellFault>>) -> bool {
    &&& results.len() == a.rows * b.cols
    &&& forall|i: int, j: int|
        0 <= i < a.rows && 0 <= j < b.cols ==> {
            if dot_fits(a.row(i), b.col(j)) {
                #[trigger] results[i * b.cols + j] matches Ok(v) && v as int == dot(
                    a.row(i),
                    b.col(j),
                )
            } else {
                results[i * b.cols + j] == Err::<i64, CellFault>(CellFault::Overflow)
            }
        }
}

/// When every cell fits, faithful results are exactly correct results.
pub proof fn lemma_faithful_all_fit(a: Matrix, b: Matrix, results: Seq<Result<i64, CellFault>>)
    requires
        results_faithful(a, b, results),
        mul_fits(a, b),
    ensures
        results_correct(a, b, results),
        forall|n: int| 0 <= n < results.len() ==> results[n] is Ok,
{
    assert forall|i: int, j: int|
        0 <= i < a.rows && 0 <= j < b.cols implies (#[trigger] results[i * b.cols + j] matches Ok(
        v,
    ) && v as int == dot(a.row(i), b.col(j))) by {
        assert(dot_fits(a.row(i), b.col(j)));
    }
    assert forall|n: int| 0 <= n < results.len() implies results[n] is Ok by {
        lemma_flat_split(n, a.rows as int, b.cols as int);
        let i = n / (b.cols as int);
        let j = n % (b.cols as int);
        vstd::arithmetic::div_mod::lemma_fundamental_div_mod(n, b.cols as int);
        assert(n == i * b.cols + j);
        assert(dot_fits(a.row(i), b.col(j)));
        assert(results[i * b.cols + j] matches Ok(v) && v as int == dot(a.row(i), b.col(j)));
    }
}

/// The parallel path fails exactly as the sequential one: when some cell's
/// dot product leaves `i64` and the workers reported faithfully, the error
/// that collection returns names the first bad cell, in row-major order,
/// with an overflow fault — the same error `multiply` reports. Together
/// with `lemma_parallel_equals_sequential` for the fitting case, the two
/// paths agree on every pair of compatible operands, whatever the pool
/// size and scheduling.
pub proof fn lemma_parallel_error_matches_sequential(
    a: Matrix,
    b: Matrix,
    results: Seq<Result<i64, CellFault>>,
    e: MatError,
)
    requires
        a.wf(),
        b.wf(),
        a.cols == b.rows,
        a.rows * b.cols <= usize::MAX,
        results_faithful(a, b, results),
        !mul_fits(a, b),
        exists|n: int|
            0 <= n < results.len() && (#[trigger] results[n] matches Err(f) && e
                == MatError::ComputationError(n as usize, f)) && forall|k: int|
                0 <= k < n ==> results[k] is Ok,
    ensures
        e matches MatError::ComputationError(idx, fault) && fault == CellFault::Overflow
            && exists|i: int, j: int| idx == i * b.cols + j && first_bad_cell(a, b, i, j),
{
    let n = choose|n: int|
        0 <= n < results.len() && (#[trigger] results[n] matches Err(f) && e
            == MatError::ComputationError(n as usize, f)) && forall|k: int|
            0 <= k < n ==> results[k] is Ok;
    lemma_flat_split(n, a.rows as int, b.cols as int);
    let i = n / (b.cols as int);
    let j = n % (b.cols as int);
    vstd::arithmetic::div_mod::lemma_fundamental_div_mod(n, b.cols as int);
    assert(n == i * b.cols + j);
    assert(a.row(i) == a.row(i) && b.col(j) == b.col(j));
    if dot_fits(a.row(i), b.col(j)) {
        assert(results[i * b.cols + j] matches Ok(v) && v as int == dot(a.row(i), b.col(j)));
        assert(false);
    }
    assert(results[i * b.cols + j] == Err::<i64, CellFault>(CellFault::Overflow));
    assert(e == MatError::ComputationError(n as usize, CellFault::Overflow));
    assert forall|p: int, q: int|
        0 <= p < a.rows && 0 <= q < b.cols && (p < i || (p == i && q < j)) implies dot_fits(
        #[trigger] a.row(p),
        #[trigger] b.col(q),
    ) by {
        lemma_cell_index(p, q, a.rows as int, b.cols as int);
        lemma_rowmajor_order(p, q, i, j, b.cols as int);
        let k = p * b.cols + q;
        assert(results[k] is Ok);
        if !dot_fits(a.row(p), b.col(q)) {
            assert(results[p * b.cols + q] == Err::<i64, CellFault>(CellFault::Overflow));
            assert(false);
        }
    }
    assert(first_bad_cell(a, b, i, j));
}

} // verus!
