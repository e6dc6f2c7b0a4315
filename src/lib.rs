//! Squared residual of the 5-point finite-difference Laplacian on a
//! rectangular grid, computed from the stencil without forming the matrix.

pub mod grid;
pub mod laws;
pub mod residual;

pub use grid::{square, Laplace2dMatrix, Neighbors};
pub use residual::{
    calculate_residual_squared, calculate_residual_squared_quadratic, ResidualSquared,
};
