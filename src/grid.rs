//! Grid geometry and the three stencil coefficients of the 2D Laplacian.

use vstd::arithmetic::div_mod::{lemma_fundamental_div_mod, lemma_fundamental_div_mod_converse};
use vstd::prelude::*;

verus! {

/// The square of `i`.
pub fn square(i: u128) -> (r: u128)
    requires
        i * i <= u128::MAX,
    ensures
        r == i * i,
{
    i * i
}

/// The block-tridiagonal matrix of the 5-point Laplacian on an `n_x` by `n_y`
/// grid, held as its three distinct entries.
///
/// Row `i` of the matrix belongs to grid point `i`, numbered row by row:
/// `i = row * n_x + col`.
#[derive(Debug, Clone, Copy, PartialEq, Eq)]
pub struct Laplace2dMatrix {
    pub n_x: usize,
    pub n_y: usize,
    pub n: usize,
    /// The entry on the main diagonal.
    pub diag: i64,
    /// The entry coupling horizontal neighbours within a grid row.
    pub tri_diag: i64,
    /// The entry coupling vertical neighbours between grid rows.
    pub side_diag: i64,
}

/// Whether the grid size and the coefficients of an `n_x` by `n_y` grid fit
/// their machine types.
pub open spec fn rectangular_fits(n_x: int, n_y: int) -> bool {
    &&& n_x * n_y <= usize::MAX
    &&& 2 * ((n_x + 1) * (n_x + 1) + (n_y + 1) * (n_y + 1)) <= i64::MAX
}

/// The matrix of an `n_x` by `n_y` grid.
pub open spec fn rectangular_spec(n_x: usize, n_y: usize) -> Laplace2dMatrix {
    Laplace2dMatrix {
        n_x,
        n_y,
        n: (n_x * n_y) as usize,
        diag: (-2 * ((n_x + 1) * (n_x + 1) + (n_y + 1) * (n_y + 1))) as i64,
        tri_diag: ((n_x + 1) * (n_x + 1)) as i64,
        side_diag: ((n_y + 1) * (n_y + 1)) as i64,
    }
}

/// Neighbour indices of one grid point; `None` where the point lies on the
/// grid boundary on that side.
#[derive(Debug, Clone, Copy, PartialEq, Eq)]
pub struct Neighbors {
    pub left: Option<usize>,
    pub right: Option<usize>,
    pub up: Option<usize>,
    pub down: Option<usize>,
}

impl Laplace2dMatrix {
    /// The sizes agree and the grid is not empty.
    pub open spec fn shape_ok(&self) -> bool {
        &&& self.n == self.n_x * self.n_y
        &&& self.n > 0
    }

    pub open spec fn row_of(&self, i: int) -> int {
        i / (self.n_x as int)
    }

    pub open spec fn col_of(&self, i: int) -> int {
        i % (self.n_x as int)
    }

    pub open spec fn has_left(&self, i: int) -> bool {
        self.col_of(i) > 0
    }

    pub open spec fn has_right(&self, i: int) -> bool {
        self.col_of(i) < self.n_x - 1
    }

    pub open spec fn has_up(&self, i: int) -> bool {
        self.row_of(i) > 0
    }

    pub open spec fn has_down(&self, i: int) -> bool {
        self.row_of(i) < self.n_y - 1
    }

    /// The neighbours of point `i`, as indices into the grid's buffers.
    pub open spec fn neighbors_spec(&self, i: int) -> Neighbors {
        Neighbors {
            left: if self.has_left(i) { Some((i - 1) as usize) } else { None },
            right: if self.has_right(i) { Some((i + 1) as usize) } else { None },
            up: if self.has_up(i) { Some((i - self.n_x) as usize) } else { None },
            down: if self.has_down(i) { Some((i + self.n_x) as usize) } else { None },
        }
    }

    /// The matrix of an `n_x` by `n_y` grid:
    /// `diag = -2((n_x+1)² + (n_y+1)²)`, `tri_diag = (n_x+1)²`,
    /// `side_diag = (n_y+1)²`.
    pub fn rectangular(n_x: usize, n_y: usize) -> (r: Laplace2dMatrix)
        requires
            rectangular_fits(n_x as int, n_y as int),
        ensures
            r == rectangular_spec(n_x, n_y),
    {
        let a = (n_x as u128) + 1;
        let c = (n_y as u128) + 1;
        let a2 = square(a);
        let c2 = square(c);
        let s = a2 + c2;
        assert(s == (n_x + 1) * (n_x + 1) + (n_y + 1) * (n_y + 1));
        assert(2 * s <= i64::MAX);
        let half: i64 = s as i64;
        let diag: i64 = -(2 * half);
        Laplace2dMatrix {
            n_x,
            n_y,
            n: n_x * n_y,
            diag,
            tri_diag: a2 as i64,
            side_diag: c2 as i64,
        }
    }

    /// The matrix of an `n_xy` by `n_xy` grid.
    pub fn quadratic(n_xy: usize) -> (r: Laplace2dMatrix)
        requires
            rectangular_fits(n_xy as int, n_xy as int),
        ensures
            r == rectangular_spec(n_xy, n_xy),
    {
        Laplace2dMatrix::rectangular(n_xy, n_xy)
    }

    /// The neighbours of grid point `i`.
    pub fn neighbors(&self, i: usize) -> (r: Neighbors)
        requires
            self.shape_ok(),
            i < self.n,
        ensures
            r == self.neighbors_spec(i as int),
    {
        proof {
            self.lemma_point(i as int);
        }
        let col = i % self.n_x;
        let row = i / self.n_x;
        Neighbors {
            left: if col > 0 { Some(i - 1) } else { None },
            right: if col + 1 < self.n_x { Some(i + 1) } else { None },
            up: if row > 0 { Some(i - self.n_x) } else { None },
            down: if row + 1 < self.n_y { Some(i + self.n_x) } else { None },
        }
    }

    /// Where point `i` lies, and that each neighbour it has is a point of
    /// the grid.
    pub proof fn lemma_point(&self, i: int)
        requires
            self.shape_ok(),
            0 <= i < self.n,
        ensures
            self.n_x > 0,
            self.n_y > 0,
            i == self.row_of(i) * self.n_x + self.col_of(i),
            0 <= self.col_of(i) < self.n_x,
            0 <= self.row_of(i) < self.n_y,
            self.has_left(i) ==> i >= 1,
            self.has_right(i) ==> i + 1 < self.n,
            self.has_up(i) ==> i >= self.n_x,
            self.has_down(i) ==> i + self.n_x < self.n,
    {
        let nx = self.n_x as int;
        let ny = self.n_y as int;
        let row = self.row_of(i);
        let col = self.col_of(i);
        assert(nx > 0) by (nonlinear_arith)
            requires
                self.n == nx * ny,
                self.n > 0,
                nx >= 0,
                ny >= 0,
        ;
        lemma_fundamental_div_mod(i, nx);
        assert(i == row * nx + col) by (nonlinear_arith)
            requires
                i == nx * row + col,
        ;
        assert(0 <= row < ny) by (nonlinear_arith)
            requires
                i == row * nx + col,
                0 <= col < nx,
                0 <= i < nx * ny,
        ;
        assert(row < ny - 1 ==> i + nx < nx * ny) by (nonlinear_arith)
            requires
                i == row * nx + col,
                0 <= col < nx,
        ;
        assert(row > 0 ==> i >= nx) by (nonlinear_arith)
            requires
                i == row * nx + col,
                0 <= col,
                nx > 0,
        ;
        assert(col < nx - 1 ==> i + 1 < nx * ny) by (nonlinear_arith)
            requires
                i == row * nx + col,
                0 <= row < ny,
                nx > 0,
        ;
    }

    /// The grid point at `row` and `col`.
    pub proof fn lemma_index(&self, row: int, col: int)
        requires
            self.shape_ok(),
            0 <= row < self.n_y,
            0 <= col < self.n_x,
        ensures
            0 <= row * self.n_x + col < self.n,
            self.row_of(row * self.n_x + col) == row,
            self.col_of(row * self.n_x + col) == col,
    {
        let nx = self.n_x as int;
        let ny = self.n_y as int;
        lemma_fundamental_div_mod_converse(row * nx + col, nx, row, col);
        assert(0 <= row * nx + col < nx * ny) by (nonlinear_arith)
            requires
                0 <= row < ny,
                0 <= col < nx,
        ;
    }
}

} // verus!
