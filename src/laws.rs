//! Properties of the squared residual: it agrees with the product by the
//! assembled matrix, and behaves as a quadratic form should.

use crate::grid::Laplace2dMatrix;
use crate::residual::{
    local_residual, residual_outcome, residual_sum, stencil_value, ResidualSquared,
};
use vstd::arithmetic::div_mod::lemma_fundamental_div_mod_converse;
use vstd::prelude::*;

verus! {

/// Entry `(i, j)` of the assembled matrix: `diag` on the diagonal, `tri_diag`
/// between horizontally adjacent points, `side_diag` between vertically
/// adjacent ones, zero elsewhere.
pub open spec fn dense_entry(l: Laplace2dMatrix, i: int, j: int) -> int {
    let nx = l.n_x as int;
    let ri = i / nx;
    let ci = i % nx;
    let rj = j / nx;
    let cj = j % nx;
    if ri == rj && ci == cj {
        l.diag as int
    } else if ri == rj && (ci - cj == 1 || cj - ci == 1) {
        l.tri_diag as int
    } else if ci == cj && (ri - rj == 1 || rj - ri == 1) {
        l.side_diag as int
    } else {
        0
    }
}

/// `Σ_{j<k} L[i][j] · x[j]`, row `i` of the assembled matrix times `x`,
/// over the first `k` columns.
pub open spec fn dense_row_product(l: Laplace2dMatrix, x: Seq<int>, i: int, k: nat) -> int
    decreases k,
{
    if k == 0 {
        0
    } else {
        dense_row_product(l, x, i, (k - 1) as nat) + x[k - 1] * dense_entry(l, i, k - 1)
    }
}

/// `Σ_{i<k} ((Lx)ᵢ − bᵢ)²` with `L` the assembled matrix.
pub open spec fn dense_residual_sum(l: Laplace2dMatrix, x: Seq<int>, b: Seq<int>, k: nat) -> int
    decreases k,
{
    if k == 0 {
        0
    } else {
        let v = dense_row_product(l, x, k - 1, l.n as nat) - b[k - 1];
        dense_residual_sum(l, x, b, (k - 1) as nat) + v * v
    }
}

/// Every value of `s` times `k`.
pub open spec fn scaled(s: Seq<int>, k: int) -> Seq<int> {
    Seq::new(s.len(), |j: int| k * s[j])
}

/// The stencil terms of point `i` whose column index lies below `k`.
spec fn stencil_prefix(l: Laplace2dMatrix, x: Seq<int>, i: int, k: int) -> int {
    (if i < k {
        x[i] * l.diag
    } else {
        0
    }) + (if l.has_left(i) && i - 1 < k {
        x[i - 1] * l.tri_diag
    } else {
        0
    }) + (if l.has_right(i) && i + 1 < k {
        x[i + 1] * l.tri_diag
    } else {
        0
    }) + (if l.has_up(i) && i - l.n_x < k {
        x[i - l.n_x] * l.side_diag
    } else {
        0
    }) + (if l.has_down(i) && i + l.n_x < k {
        x[i + l.n_x] * l.side_diag
    } else {
        0
    })
}

/// Entry `(i, j)` of the assembled matrix, read off the neighbours of `i`.
proof fn lemma_entry(l: Laplace2dMatrix, i: int, j: int)
    requires
        l.shape_ok(),
        0 <= i < l.n,
        0 <= j < l.n,
    ensures
        dense_entry(l, i, j) == if j == i {
            l.diag as int
        } else if l.has_left(i) && j == i - 1 {
            l.tri_diag as int
        } else if l.has_right(i) && j == i + 1 {
            l.tri_diag as int
        } else if l.has_up(i) && j == i - l.n_x {
            l.side_diag as int
        } else if l.has_down(i) && j == i + l.n_x {
            l.side_diag as int
        } else {
            0
        },
{
    l.lemma_point(i);
    l.lemma_point(j);
    let nx = l.n_x as int;
    let ri = i / nx;
    let ci = i % nx;
    let rj = j / nx;
    let cj = j % nx;
    assert((ri + 1) * nx == ri * nx + nx) by (nonlinear_arith);
    assert((ri - 1) * nx == ri * nx - nx) by (nonlinear_arith);
    assert((rj + 1) * nx == rj * nx + nx) by (nonlinear_arith);
    if l.has_left(i) && j == i - 1 {
        lemma_fundamental_div_mod_converse(j, nx, ri, ci - 1);
    }
    if l.has_right(i) && j == i + 1 {
        lemma_fundamental_div_mod_converse(j, nx, ri, ci + 1);
    }
    if l.has_up(i) && j == i - nx {
        lemma_fundamental_div_mod_converse(j, nx, ri - 1, ci);
    }
    if l.has_down(i) && j == i + nx {
        lemma_fundamental_div_mod_converse(j, nx, ri + 1, ci);
    }
}

proof fn lemma_row_prefix(l: Laplace2dMatrix, x: Seq<int>, i: int, k: nat)
    requires
        l.shape_ok(),
        0 <= i < l.n,
        k <= l.n,
    ensures
        dense_row_product(l, x, i, k) == stencil_prefix(l, x, i, k as int),
    decreases k,
{
    l.lemma_point(i);
    if k > 0 {
        lemma_row_prefix(l, x, i, (k - 1) as nat);
        lemma_entry(l, i, k - 1);
    }
}

/// Each stencil value is the matching entry of the product of the assembled
/// matrix with `x`.
pub proof fn lemma_stencil_is_dense_product(l: Laplace2dMatrix, x: Seq<int>, i: int)
    requires
        l.shape_ok(),
        x.len() == l.n,
        0 <= i < l.n,
    ensures
        stencil_value(l, x, i) == dense_row_product(l, x, i, l.n as nat),
{
    l.lemma_point(i);
    lemma_row_prefix(l, x, i, l.n as nat);
}

/// The stencil sweep gives the same squared residual as the assembled
/// matrix, over every prefix of the points.
pub proof fn lemma_residual_is_dense(l: Laplace2dMatrix, x: Seq<int>, b: Seq<int>, k: nat)
    requires
        l.shape_ok(),
        x.len() == l.n,
        b.len() == l.n,
        k <= l.n,
    ensures
        residual_sum(l, x, b, k) == dense_residual_sum(l, x, b, k),
    decreases k,
{
    if k > 0 {
        lemma_residual_is_dense(l, x, b, (k - 1) as nat);
        lemma_stencil_is_dense_product(l, x, k - 1);
    }
}

/// With `x = b`, the squared residual is `‖(L − I)x‖²` for the assembled
/// matrix `L`.
pub proof fn lemma_identical_buffers(l: Laplace2dMatrix, x: Seq<int>)
    requires
        l.shape_ok(),
        x.len() == l.n,
    ensures
        residual_sum(l, x, x, l.n as nat) == dense_residual_sum(l, x, x, l.n as nat),
{
    lemma_residual_is_dense(l, x, x, l.n as nat);
}

/// With `x` all zero and `b` all `c`, the sum over `k` points is `k · c²`.
proof fn lemma_zero_x_prefix(l: Laplace2dMatrix, x: Seq<int>, b: Seq<int>, c: int, k: nat)
    requires
        l.shape_ok(),
        x.len() == l.n,
        b.len() == l.n,
        forall|j: int| 0 <= j < l.n ==> x[j] == 0,
        forall|j: int| 0 <= j < l.n ==> b[j] == c,
        k <= l.n,
    ensures
        residual_sum(l, x, b, k) == k * (c * c),
    decreases k,
{
    if k > 0 {
        lemma_zero_x_prefix(l, x, b, c, (k - 1) as nat);
        let i = k - 1;
        l.lemma_point(i);
        assert(local_residual(l, x, b, i) == -c);
        assert((k - 1) * (c * c) + (-c) * (-c) == k * (c * c)) by (nonlinear_arith);
    } else {
        assert(k * (c * c) == 0) by (nonlinear_arith)
            requires
                k == 0,
        ;
    }
}

/// With `x` all zero and `b` all `c`, the squared residual is `c²`: the sum
/// over the `n` points is `n · c²`.
pub proof fn lemma_zero_x_constant_b(l: Laplace2dMatrix, x: Seq<int>, b: Seq<int>, c: int)
    requires
        l.shape_ok(),
        x.len() == l.n,
        b.len() == l.n,
        forall|j: int| 0 <= j < l.n ==> x[j] == 0,
        forall|j: int| 0 <= j < l.n ==> b[j] == c,
    ensures
        residual_sum(l, x, b, l.n as nat) == l.n * (c * c),
        l.n * (c * c) <= u128::MAX ==> residual_outcome(l, x, b) == Some(
            ResidualSquared { sum_of_squares: (l.n * (c * c)) as u128, points: l.n },
        ),
{
    lemma_zero_x_prefix(l, x, b, c, l.n as nat);
}

/// With both buffers all zero, the squared residual is exactly zero.
pub proof fn lemma_zero_buffers(l: Laplace2dMatrix, x: Seq<int>, b: Seq<int>)
    requires
        l.shape_ok(),
        x.len() == l.n,
        b.len() == l.n,
        forall|j: int| 0 <= j < l.n ==> x[j] == 0,
        forall|j: int| 0 <= j < l.n ==> b[j] == 0,
    ensures
        residual_sum(l, x, b, l.n as nat) == 0,
        residual_outcome(l, x, b) == Some(ResidualSquared { sum_of_squares: 0, points: l.n }),
{
    lemma_zero_x_constant_b(l, x, b, 0);
    assert(l.n * (0int * 0int) == 0);
}

proof fn lemma_scaled_point(l: Laplace2dMatrix, x: Seq<int>, b: Seq<int>, k: int, i: int)
    requires
        l.shape_ok(),
        x.len() == l.n,
        b.len() == l.n,
        0 <= i < l.n,
    ensures
        local_residual(l, scaled(x, k), scaled(b, k), i) == k * local_residual(l, x, b, i),
{
    l.lemma_point(i);
    let xs = scaled(x, k);
    let t0 = x[i] * l.diag;
    let t1 = if l.has_left(i) { x[i - 1] * l.tri_diag } else { 0 };
    let t2 = if l.has_right(i) { x[i + 1] * l.tri_diag } else { 0 };
    let t3 = if l.has_up(i) { x[i - l.n_x] * l.side_diag } else { 0 };
    let t4 = if l.has_down(i) { x[i + l.n_x] * l.side_diag } else { 0 };
    assert(xs[i] * l.diag == k * t0) by (nonlinear_arith)
        requires
            xs[i] == k * x[i],
            t0 == x[i] * l.diag,
    ;
    if l.has_left(i) {
        assert(xs[i - 1] * l.tri_diag == k * t1) by (nonlinear_arith)
            requires
                xs[i - 1] == k * x[i - 1],
                t1 == x[i - 1] * l.tri_diag,
        ;
    }
    if l.has_right(i) {
        assert(xs[i + 1] * l.tri_diag == k * t2) by (nonlinear_arith)
            requires
                xs[i + 1] == k * x[i + 1],
                t2 == x[i + 1] * l.tri_diag,
        ;
    }
    if l.has_up(i) {
        assert(xs[i - l.n_x] * l.side_diag == k * t3) by (nonlinear_arith)
            requires
                xs[i - l.n_x] == k * x[i - l.n_x],
                t3 == x[i - l.n_x] * l.side_diag,
        ;
    }
    if l.has_down(i) {
        assert(xs[i + l.n_x] * l.side_diag == k * t4) by (nonlinear_arith)
            requires
                xs[i + l.n_x] == k * x[i + l.n_x],
                t4 == x[i + l.n_x] * l.side_diag,
        ;
    }
    let bb = b[i];
    assert(k * t0 + k * t1 + k * t2 + k * t3 + k * t4 - k * bb == k * (t0 + t1 + t2 + t3 + t4
        - bb)) by (nonlinear_arith);
}

proof fn lemma_scaled_prefix(l: Laplace2dMatrix, x: Seq<int>, b: Seq<int>, k: int, m: nat)
    requires
        l.shape_ok(),
        x.len() == l.n,
        b.len() == l.n,
        m <= l.n,
    ensures
        residual_sum(l, scaled(x, k), scaled(b, k), m) == (k * k) * residual_sum(l, x, b, m),
    decreases m,
{
    if m > 0 {
        lemma_scaled_prefix(l, x, b, k, (m - 1) as nat);
        lemma_scaled_point(l, x, b, k, m - 1);
        let v = local_residual(l, x, b, m - 1);
        let s = residual_sum(l, x, b, (m - 1) as nat);
        assert((k * k) * s + (k * v) * (k * v) == (k * k) * (s + v * v)) by (nonlinear_arith);
    }
}

/// Scaling both buffers by `k` scales the squared residual by `k²`.
pub proof fn lemma_scaling(l: Laplace2dMatrix, x: Seq<int>, b: Seq<int>, k: int)
    requires
        l.shape_ok(),
        x.len() == l.n,
        b.len() == l.n,
    ensures
        residual_sum(l, scaled(x, k), scaled(b, k), l.n as nat) == (k * k) * residual_sum(
            l,
            x,
            b,
            l.n as nat,
        ),
{
    lemma_scaled_prefix(l, x, b, k, l.n as nat);
}

} // verus!
