//! The squared residual `‖Lx − b‖²`, computed point by point from the
//! stencil, in exact integer arithmetic.

use crate::grid::{square, Laplace2dMatrix};
use vstd::prelude::*;

verus! {

/// A bound on the magnitude of one stencil term, a buffer value times a
/// coefficient: `2^94`.
pub const TERM_BOUND: i128 = 0x4000_0000_0000_0000_0000_0000;

/// The squared residual as a fraction: `sum_of_squares / points`.
#[derive(Debug, Clone, Copy, PartialEq, Eq)]
pub struct ResidualSquared {
    /// `Σᵢ (Lx − b)ᵢ²` over every grid point.
    pub sum_of_squares: u128,
    /// The number of grid points, by which the sum is normalised.
    pub points: usize,
}

/// A buffer's values as mathematical integers.
pub open spec fn ints(s: Seq<i32>) -> Seq<int> {
    s.map_values(|v: i32| v as int)
}

/// `(Lx)ᵢ`: the diagonal term and one term for each neighbour that point `i`
/// has.
pub open spec fn stencil_value(l: Laplace2dMatrix, x: Seq<int>, i: int) -> int {
    x[i] * l.diag + (if l.has_left(i) {
        x[i - 1] * l.tri_diag
    } else {
        0
    }) + (if l.has_right(i) {
        x[i + 1] * l.tri_diag
    } else {
        0
    }) + (if l.has_up(i) {
        x[i - l.n_x] * l.side_diag
    } else {
        0
    }) + (if l.has_down(i) {
        x[i + l.n_x] * l.side_diag
    } else {
        0
    })
}

/// `(Lx − b)ᵢ`.
pub open spec fn local_residual(l: Laplace2dMatrix, x: Seq<int>, b: Seq<int>, i: int) -> int {
    stencil_value(l, x, i) - b[i]
}

/// `Σ (Lx − b)ᵢ²` over the first `k` points.
pub open spec fn residual_sum(l: Laplace2dMatrix, x: Seq<int>, b: Seq<int>, k: nat) -> int
    decreases k,
{
    if k == 0 {
        0
    } else {
        let v = local_residual(l, x, b, k - 1);
        residual_sum(l, x, b, (k - 1) as nat) + v * v
    }
}

/// What the residual computation returns: the exact sum over all points, or
/// `None` where that sum does not fit in a `u128`.
pub open spec fn residual_outcome(l: Laplace2dMatrix, x: Seq<int>, b: Seq<int>) -> Option<
    ResidualSquared,
> {
    let s = residual_sum(l, x, b, l.n as nat);
    if s <= u128::MAX {
        Some(ResidualSquared { sum_of_squares: s as u128, points: l.n })
    } else {
        None
    }
}

/// The sum over a prefix of the points is at most the sum over a longer one.
pub proof fn lemma_residual_sum_monotone(
    l: Laplace2dMatrix,
    x: Seq<int>,
    b: Seq<int>,
    k: nat,
    m: nat,
)
    requires
        k <= m,
    ensures
        residual_sum(l, x, b, k) <= residual_sum(l, x, b, m),
    decreases m,
{
    if k < m {
        lemma_residual_sum_monotone(l, x, b, k, (m - 1) as nat);
        let v = local_residual(l, x, b, m - 1);
        assert(v * v >= 0) by (nonlinear_arith);
    }
}

/// `v * c`, with the bound that keeps five such terms inside an `i128`.
fn term(v: i32, c: i64) -> (r: i128)
    ensures
        r == v * c,
        -TERM_BOUND <= r <= TERM_BOUND,
{
    assert(-TERM_BOUND <= v * c <= TERM_BOUND) by (nonlinear_arith)
        requires
            -0x8000_0000 <= v <= 0x8000_0000int,
            -0x8000_0000_0000_0000int <= c <= 0x8000_0000_0000_0000int,
    ;
    (v as i128) * (c as i128)
}

/// `(Lx − b)ᵢ` for a point whose neighbours are given by the four flags.
fn point_residual(
    l: &Laplace2dMatrix,
    x: &[i32],
    b: &[i32],
    i: usize,
    left: bool,
    right: bool,
    up: bool,
    down: bool,
) -> (r: i128)
    requires
        l.shape_ok(),
        x@.len() == l.n,
        b@.len() == l.n,
        i < l.n,
        left == l.has_left(i as int),
        right == l.has_right(i as int),
        up == l.has_up(i as int),
        down == l.has_down(i as int),
    ensures
        r == local_residual(*l, ints(x@), ints(b@), i as int),
        -6 * TERM_BOUND <= r <= 6 * TERM_BOUND,
{
    proof {
        l.lemma_point(i as int);
    }
    let ghost xs = ints(x@);
    let mut v: i128 = term(x[i], l.diag) - (b[i] as i128);
    let ghost expect_l = if left { xs[i - 1] * l.tri_diag } else { 0 };
    let ghost expect_r = if right { xs[i + 1] * l.tri_diag } else { 0 };
    let ghost expect_u = if up { xs[i - l.n_x] * l.side_diag } else { 0 };
    let ghost expect_d = if down { xs[i + l.n_x] * l.side_diag } else { 0 };
    if left {
        v = v + term(x[i - 1], l.tri_diag);
    }
    if right {
        v = v + term(x[i + 1], l.tri_diag);
    }
    if up {
        v = v + term(x[i - l.n_x], l.side_diag);
    }
    if down {
        v = v + term(x[i + l.n_x], l.side_diag);
    }
    assert(v == xs[i as int] * l.diag + expect_l + expect_r + expect_u + expect_d - ints(
        b@,
    )[i as int]);
    v
}

/// `sum + v²`, or `None` where that does not fit in a `u128`.
fn add_square(sum: u128, v: i128) -> (r: Option<u128>)
    requires
        v > i128::MIN,
    ensures
        r matches Some(s) ==> s == sum + v * v,
        r is None ==> sum + v * v > u128::MAX,
{
    let a: u128 = if v < 0 {
        (-v) as u128
    } else {
        v as u128
    };
    assert(a * a == v * v) by (nonlinear_arith)
        requires
            a == v || a == -v,
    ;
    if a > 0xffff_ffff_ffff_ffff {
        assert(a * a > u128::MAX) by (nonlinear_arith)
            requires
                a > 0xffff_ffff_ffff_ffffint,
        ;
        return None;
    }
    assert(a * a <= u128::MAX) by (nonlinear_arith)
        requires
            0 <= a <= 0xffff_ffff_ffff_ffffint,
    ;
    let sq = square(a);
    if sq > u128::MAX - sum {
        None
    } else {
        Some(sum + sq)
    }
}

/// Adds the square of `(Lx − b)ᵢ` to `sum`, the sum over the points before
/// `i`; `None` where the sum over all points does not fit.
fn accumulate_point(
    l: &Laplace2dMatrix,
    x: &[i32],
    b: &[i32],
    sum: u128,
    i: usize,
    left: bool,
    right: bool,
    up: bool,
    down: bool,
) -> (r: Option<u128>)
    requires
        l.shape_ok(),
        x@.len() == l.n,
        b@.len() == l.n,
        i < l.n,
        left == l.has_left(i as int),
        right == l.has_right(i as int),
        up == l.has_up(i as int),
        down == l.has_down(i as int),
        sum == residual_sum(*l, ints(x@), ints(b@), i as nat),
    ensures
        r matches Some(s) ==> s == residual_sum(*l, ints(x@), ints(b@), (i + 1) as nat),
        r is None ==> residual_sum(*l, ints(x@), ints(b@), l.n as nat) > u128::MAX,
{
    let v = point_residual(l, x, b, i, left, right, up, down);
    let r = add_square(sum, v);
    proof {
        if r is None {
            lemma_residual_sum_monotone(
                *l,
                ints(x@),
                ints(b@),
                (i + 1) as nat,
                l.n as nat,
            );
        }
    }
    r
}

/// The squared residual `‖Lx − b‖²` over all points, with the number of
/// points to normalise it by; `None` where the sum does not fit in a `u128`.
///
/// The sweep goes row by row. Within a row the first and last points, which
/// lack a left or a right neighbour, are taken apart from the interior ones;
/// the first and last rows lack the neighbour above or below.
pub fn calculate_residual_squared(l: &Laplace2dMatrix, x: &[i32], b: &[i32]) -> (r: Option<
    ResidualSquared,
>)
    requires
        l.shape_ok(),
        x@.len() == l.n,
        b@.len() == l.n,
    ensures
        r == residual_outcome(*l, ints(x@), ints(b@)),
{
    let ghost xs = ints(x@);
    let ghost bs = ints(b@);
    let n_x = l.n_x;
    let n_y = l.n_y;
    proof {
        l.lemma_point(0);
    }
    let mut sum: u128 = 0;
    let mut row: usize = 0;
    while row < n_y
        invariant
            l.shape_ok(),
            x@.len() == l.n,
            b@.len() == l.n,
            xs == ints(x@),
            bs == ints(b@),
            n_x == l.n_x,
            n_y == l.n_y,
            n_x > 0,
            row <= n_y,
            row * n_x <= l.n,
            sum == residual_sum(*l, xs, bs, (row * n_x) as nat),
        decreases n_y - row,
    {
        proof {
            l.lemma_index(row as int, 0);
            assert((row + 1) * n_x == row * n_x + n_x) by (nonlinear_arith);
            l.lemma_index(row as int, n_x - 1);
        }
        let base = row * n_x;
        let up = row > 0;
        let down = row + 1 < n_y;

        match accumulate_point(l, x, b, sum, base, false, n_x > 1, up, down) {
            Some(s) => sum = s,
            None => return None,
        }
        let mut col: usize = 1;
        while col < n_x - 1
            invariant
                l.shape_ok(),
                x@.len() == l.n,
                b@.len() == l.n,
                xs == ints(x@),
                bs == ints(b@),
                n_x == l.n_x,
                n_y == l.n_y,
                row < n_y,
                base == row * n_x,
                up == (row > 0),
                down == (row + 1 < n_y),
                n_x > 0,
                1 <= col,
                n_x > 1 ==> col <= n_x - 1,
                n_x == 1 ==> col == 1,
                sum == residual_sum(*l, xs, bs, (base + col) as nat),
            decreases n_x - col,
        {
            proof {
                l.lemma_index(row as int, col as int);
            }
            match accumulate_point(l, x, b, sum, base + col, true, true, up, down) {
                Some(s) => sum = s,
                None => return None,
            }
            col = col + 1;
        }
        if n_x > 1 {
            match accumulate_point(l, x, b, sum, base + n_x - 1, true, false, up, down) {
                Some(s) => sum = s,
                None => return None,
            }
        }
        assert(sum == residual_sum(*l, xs, bs, (base + n_x) as nat));
        row = row + 1;
        assert(row * n_x == base + n_x) by (nonlinear_arith)
            requires
                row == (row - 1) + 1,
                base == (row - 1) * n_x,
        ;
    }
    assert(n_y * n_x == l.n) by (nonlinear_arith)
        requires
            l.n == n_x * n_y,
    ;
    Some(ResidualSquared { sum_of_squares: sum, points: l.n })
}

/// The squared residual on the `n_xy` by `n_xy` grid, as
/// [`calculate_residual_squared`] computes it with
/// [`Laplace2dMatrix::quadratic`].
pub fn calculate_residual_squared_quadratic(n_xy: usize, x: &[i32], b: &[i32]) -> (r: Option<
    ResidualSquared,
>)
    requires
        n_xy > 0,
        crate::grid::rectangular_fits(n_xy as int, n_xy as int),
        x@.len() == n_xy * n_xy,
        b@.len() == n_xy * n_xy,
    ensures
        r == residual_outcome(crate::grid::rectangular_spec(n_xy, n_xy), ints(x@), ints(b@)),
{
    let l = Laplace2dMatrix::quadratic(n_xy);
    assert(l.n > 0) by (nonlinear_arith)
        requires
            l.n == n_xy * n_xy,
            n_xy > 0,
    ;
    calculate_residual_squared(&l, x, b)
}

} // verus!
