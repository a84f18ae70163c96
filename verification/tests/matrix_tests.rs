use matmul::coordinator::{collect_results, plan_tasks, worker_for};
use matmul::matrix::identity;
use matmul::{calculate_thread_count, dot_product, multiply, CellFault, MatError, Matrix, Vector};

fn reference_multiply(a: &Matrix, b: &Matrix) -> Vec<i64> {
    let mut out = vec![0i64; a.rows * b.cols];
    for i in 0..a.rows {
        for j in 0..b.cols {
            let mut sum = 0i64;
            for k in 0..a.cols {
                sum += a.data[i * a.cols + k] * b.data[k * b.cols + j];
            }
            out[i * b.cols + j] = sum;
        }
    }
    out
}

#[test]
fn test_matrix_debug() {
    let a = Matrix::new(vec![1, 2, 3, 4, 5, 6], 2, 3);
    let b = Matrix::new(vec![1, 2, 3, 4, 5, 6], 3, 2);
    let c = multiply(&a, &b).unwrap();
    assert_eq!(
        c.render_debug(),
        "Matrix { rows: 2, cols: 2, data: {22 28, 49 64} }"
    );
}

#[test]
fn test_matrix_display() {
    let a = Matrix::new(vec![1, 2, 3, 4, 5, 6, 7, 8, 9, 10, 11, 12], 3, 4);
    let b = Matrix::new(vec![1, 2, 3, 4, 5, 6, 7, 8, 9, 10, 11, 12], 4, 3);
    let c = multiply(&a, &b).unwrap();
    assert_eq!(c.render(), "{70 80 90, 158 184 210, 246 288 330}");
}

#[test]
fn test_a_can_not_multiply_b() {
    let a = Matrix::new(vec![1, 2, 3, 4, 5, 6], 2, 3);
    let b = Matrix::new(vec![1, 2, 3, 4], 2, 2);
    let c = multiply(&a, &b);
    assert!(c.is_err());
}

#[test]
fn dimension_mismatch_is_reported_exactly() {
    let a = Matrix::new(vec![1, 2, 3, 4, 5, 6], 2, 3);
    let b = Matrix::new(vec![1, 2, 3, 4], 2, 2);
    assert_eq!(multiply(&a, &b).unwrap_err(), MatError::DimensionMismatch);
    assert_eq!(
        plan_tasks(&a, &b).unwrap_err(),
        MatError::DimensionMismatch
    );
}

#[test]
fn dot_product_matches_by_hand() {
    let a = Vector::new(vec![1, 2, 3]);
    let b = Vector::new(vec![4, 5, 6]);
    assert_eq!(dot_product(a, b).unwrap(), 32);
}

#[test]
fn dot_product_is_commutative() {
    let samples: Vec<(Vec<i64>, Vec<i64>)> = vec![
        (vec![1, 2, 3], vec![4, 5, 6]),
        (vec![-7, 0, 9, 2], vec![3, -1, 8, 5]),
        (vec![], vec![]),
    ];
    for (u, v) in samples {
        let lhs = dot_product(Vector::new(u.clone()), Vector::new(v.clone()));
        let rhs = dot_product(Vector::new(v), Vector::new(u));
        assert_eq!(lhs.unwrap(), rhs.unwrap());
    }
}

#[test]
fn dot_product_length_mismatch() {
    let a = Vector::new(vec![1, 2]);
    let b = Vector::new(vec![1, 2, 3]);
    assert_eq!(dot_product(a, b).unwrap_err(), MatError::LengthMismatch);
}

#[test]
fn dot_product_overflow_is_reported() {
    let a = Vector::new(vec![i64::MAX]);
    let b = Vector::new(vec![2]);
    assert_eq!(dot_product(a, b).unwrap_err(), MatError::Overflow);
}

#[test]
fn multiply_overflow_names_the_cell() {
    let a = Matrix::new(vec![1, i64::MAX], 2, 1);
    let b = Matrix::new(vec![2], 1, 1);
    assert_eq!(
        multiply(&a, &b).unwrap_err(),
        MatError::ComputationError(1, CellFault::Overflow)
    );
}

#[test]
fn identity_returns_the_original() {
    let a = Matrix::new(vec![1, -2, 3, 4, 5, -6], 2, 3);
    let e3 = identity(3);
    let right = multiply(&a, &e3).unwrap();
    assert_eq!(right.data, a.data);
    assert_eq!((right.rows, right.cols), (2, 3));
    let e2 = identity(2);
    let left = multiply(&e2, &a).unwrap();
    assert_eq!(left.data, a.data);
}

#[test]
fn associativity_on_small_matrices() {
    let a = Matrix::new(vec![1, 2, -3, 4, 0, 5], 2, 3);
    let b = Matrix::new(vec![2, -1, 3, 0, 1, 1, -2, 4, 0, 2, 1, 1], 3, 4);
    let c = Matrix::new(vec![1, 0, 2, -1, 3, 1, 1, 2], 4, 2);
    let ab = multiply(&a, &b).unwrap();
    let bc = multiply(&b, &c).unwrap();
    let lhs = multiply(&ab, &c).unwrap();
    let rhs = multiply(&a, &bc).unwrap();
    assert_eq!(lhs.data, rhs.data);
    assert_eq!((lhs.rows, lhs.cols), (rhs.rows, rhs.cols));
}

#[test]
fn element_access_uses_row_major_layout() {
    let m = Matrix::new(vec![1, 2, 3, 4, 5, 6], 2, 3);
    assert_eq!(m.get(0, 0), 1);
    assert_eq!(m.get(0, 2), 3);
    assert_eq!(m.get(1, 1), 5);
    let row = m.row_vector(1);
    assert_eq!((row.len(), row.get(0), row.get(2)), (3, 4, 6));
    let col = m.col_vector(2);
    assert_eq!((col.len(), col.get(0), col.get(1)), (2, 3, 6));
}

#[test]
fn render_handles_negative_values() {
    let m = Matrix::new(vec![-5, 10, 0, -123], 2, 2);
    assert_eq!(m.render(), "{-5 10, 0 -123}");
}

#[test]
fn thread_count_thresholds() {
    assert_eq!(calculate_thread_count(9, 11), 1);
    assert_eq!(calculate_thread_count(10, 10), 2);
    assert_eq!(calculate_thread_count(33, 30), 2);
    assert_eq!(calculate_thread_count(25, 40), 4);
}

#[test]
fn planned_tasks_assemble_into_the_product() {
    // The coordinator path: plan one task per cell, compute each dot
    // product (in any worker order), collect in creation order.
    let a = Matrix::new((1..=6).collect::<Vec<i64>>(), 2, 3);
    let b = Matrix::new((1..=6).collect::<Vec<i64>>(), 3, 2);
    let tasks = plan_tasks(&a, &b).unwrap();
    let mut results = Vec::new();
    for t in tasks {
        results.push(Ok(dot_product(t.row, t.col).unwrap()));
    }
    let m = collect_results(2, 2, results).unwrap();
    let expected = multiply(&a, &b).unwrap();
    assert_eq!(m.data, expected.data);
}

#[test]
fn scaling_across_thread_count_thresholds_keeps_results() {
    // 5x5 (25 cells, one worker), 10x10 (100 cells, two workers) and
    // 32x32 (1024 cells, four workers): the product always matches the
    // plain nested-loop reference.
    for n in [5usize, 10, 32] {
        let data: Vec<i64> = (0..n * n).map(|x| (x % 17) as i64 - 8).collect();
        let a = Matrix::new(data.clone(), n, n);
        let b = Matrix::new(data, n, n);
        let c = multiply(&a, &b).unwrap();
        assert_eq!(c.data, reference_multiply(&a, &b));
    }
}

#[test]
fn worker_routing_is_round_robin() {
    assert_eq!(worker_for(0, 4), 0);
    assert_eq!(worker_for(5, 4), 1);
    assert_eq!(worker_for(7, 1), 0);
}

#[test]
fn collect_results_names_the_failing_cell_and_fault() {
    let results = vec![Ok(1i64), Err(CellFault::Disconnected), Ok(3i64)];
    assert_eq!(
        collect_results(1, 3, results).unwrap_err(),
        MatError::ComputationError(1, CellFault::Disconnected)
    );
}

#[test]
fn parallel_and_sequential_fail_on_the_same_cell() {
    // Cell 0 fits, cell 1 overflows: the collected path and the
    // single-threaded path report the same cell with the same fault.
    let a = Matrix::new(vec![1, i64::MAX], 2, 1);
    let b = Matrix::new(vec![2], 1, 1);
    let tasks = plan_tasks(&a, &b).unwrap();
    let mut results = Vec::new();
    for t in tasks {
        results.push(match dot_product(t.row, t.col) {
            Ok(v) => Ok(v),
            Err(_) => Err(CellFault::Overflow),
        });
    }
    let parallel = collect_results(2, 1, results).unwrap_err();
    let sequential = multiply(&a, &b).unwrap_err();
    assert_eq!(parallel, sequential);
    assert_eq!(parallel, MatError::ComputationError(1, CellFault::Overflow));
}
