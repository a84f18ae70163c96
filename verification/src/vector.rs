use vstd::prelude::*;

verus! {

use crate::errors::MatError;

/// An owned, indexable sequence of matrix elements: the operand of a dot
/// product. Immutable after construction.
#[derive(Debug)]
pub struct Vector {
    data: Vec<i64>,
}

impl View for Vector {
    type V = Seq<i64>;

    closed spec fn view(&self) -> Seq<i64> {
        self.data@
    }
}

impl Vector {
    /// Wraps an owned buffer as a vector.
    pub fn new(data: Vec<i64>) -> (r: Vector)
        ensures
            r@ == data@,
    {
        Vector { data }
    }

    /// Number of elements.
    pub fn len(&self) -> (r: usize)
        ensures
            r == self@.len(),
    {
        self.data.len()
    }

    /// The element at position `i`.
    pub fn get(&self, i: usize) -> (r: i64)
        requires
            i < self@.len(),
        ensures
            r == self@[i as int],
    {
        self.data[i]
    }
}

/// Sum of the first `n` element-wise products of `a` and `b`, over the
/// unbounded integers.
pub open spec fn dot_prefix(a: Seq<i64>, b: Seq<i64>, n: int) -> int
    decreases n,
{
    if n <= 0 {
        0
    } else {
        dot_prefix(a, b, n - 1) + a[n - 1] * b[n - 1]
    }
}

/// The full dot product of `a` and `b`, over the unbounded integers.
pub open spec fn dot(a: Seq<i64>, b: Seq<i64>) -> int {
    dot_prefix(a, b, a.len() as int)
}

/// `x` fits in `i64`.
pub open spec fn i64_bounded(x: int) -> bool {
    i64::MIN <= x <= i64::MAX
}

/// Computing the first `n` steps of the dot product of `a` and `b` left to
/// right stays inside the `i64` range: every element-wise product and every
/// partial sum fits.
pub open spec fn dot_fits_prefix(a: Seq<i64>, b: Seq<i64>, n: int) -> bool
    decreases n,
{
    if n <= 0 {
        true
    } else {
        dot_fits_prefix(a, b, n - 1) && i64_bounded(a[n - 1] * b[n - 1]) && i64_bounded(
            dot_prefix(a, b, n),
        )
    }
}

/// Computing the dot product of `a` and `b` left to right stays inside the
/// `i64` range: every element-wise product and every partial sum fits.
pub open spec fn dot_fits(a: Seq<i64>, b: Seq<i64>) -> bool {
    dot_fits_prefix(a, b, a.len() as int)
}

/// A failure within the first `n` steps persists for the whole computation.
proof fn lemma_dot_fits_prefix_monotone(a: Seq<i64>, b: Seq<i64>, n: int, m: int)
    requires
        n <= m,
        !dot_fits_prefix(a, b, n),
    ensures
        !dot_fits_prefix(a, b, m),
    decreases m,
{
    if n < m {
        lemma_dot_fits_prefix_monotone(a, b, n, m - 1);
    }
}

/// Inner product of two equal-length vectors, accumulated from the additive
/// identity. Deterministic: the result depends only on the inputs.
///
/// Returns `LengthMismatch` exactly when the lengths differ, `Overflow`
/// exactly when some element-wise product or partial sum leaves the `i64`
/// range, and the dot product otherwise.
pub fn dot_product(a: Vector, b: Vector) -> (r: Result<i64, MatError>)
    ensures
        a@.len() != b@.len() ==> r == Err::<i64, MatError>(MatError::LengthMismatch),
        a@.len() == b@.len() && dot_fits(a@, b@) ==> (r matches Ok(v) && v as int == dot(a@, b@)),
        a@.len() == b@.len() && !dot_fits(a@, b@) ==> r == Err::<i64, MatError>(MatError::Overflow),
{
    if a.data.len() != b.data.len() {
        return Err(MatError::LengthMismatch);
    }
    let n = a.data.len();
    let mut sum: i64 = 0;
    let mut i: usize = 0;
    while i < n
        invariant
            n == a@.len(),
            n == b@.len(),
            i <= n,
            sum as int == dot_prefix(a@, b@, i as int),
            dot_fits_prefix(a@, b@, i as int),
        decreases n - i,
    {
        proof {
            assert(dot_prefix(a@, b@, i + 1) == dot_prefix(a@, b@, i as int) + a@[i as int]
                * b@[i as int]);
        }
        let p = match a.data[i].checked_mul(b.data[i]) {
            Some(p) => p,
            None => {
                proof {
                    lemma_dot_fits_prefix_monotone(a@, b@, i + 1, n as int);
                }
                return Err(MatError::Overflow);
            },
        };
        let s = match sum.checked_add(p) {
            Some(s) => s,
            None => {
                proof {
                    lemma_dot_fits_prefix_monotone(a@, b@, i + 1, n as int);
                }
                return Err(MatError::Overflow);
            },
        };
        sum = s;
        i += 1;
    }
    Ok(sum)
}

proof fn lemma_dot_prefix_commutative(a: Seq<i64>, b: Seq<i64>, n: int)
    ensures
        dot_prefix(a, b, n) == dot_prefix(b, a, n),
        dot_fits_prefix(a, b, n) == dot_fits_prefix(b, a, n),
    decreases n,
{
    if n > 0 {
        lemma_dot_prefix_commutative(a, b, n - 1);
    }
}

/// The dot product is commutative: swapping the two operands — a row of one
/// matrix and a column of another, say — changes neither the value nor
/// whether the computation fits in `i64`.
pub proof fn lemma_dot_commutative(a: Seq<i64>, b: Seq<i64>)
    requires
        a.len() == b.len(),
    ensures
        dot(a, b) == dot(b, a),
        dot_fits(a, b) == dot_fits(b, a),
{
    lemma_dot_prefix_commutative(a, b, a.len() as int);
}

} // verus!
