use laplace_residual::{
    calculate_residual_squared, calculate_residual_squared_quadratic, square, Laplace2dMatrix,
    Neighbors, ResidualSquared,
};

/// `Σ ((Lx)ᵢ − bᵢ)²` with `L` written out entry by entry.
fn dense_reference(l: &Laplace2dMatrix, x: &[i32], b: &[i32]) -> u128 {
    let mut total: u128 = 0;
    for i in 0..l.n {
        let (ri, ci) = ((i / l.n_x) as i64, (i % l.n_x) as i64);
        let mut s: i128 = -(b[i] as i128);
        for j in 0..l.n {
            let (rj, cj) = ((j / l.n_x) as i64, (j % l.n_x) as i64);
            let entry = if ri == rj && ci == cj {
                l.diag
            } else if ri == rj && (ci - cj).abs() == 1 {
                l.tri_diag
            } else if ci == cj && (ri - rj).abs() == 1 {
                l.side_diag
            } else {
                0
            };
            s += entry as i128 * x[j] as i128;
        }
        total += (s * s) as u128;
    }
    total
}

fn ramp(n: usize, start: i32, step: i32) -> Vec<i32> {
    (0..n).map(|i| start + step * i as i32).collect()
}

#[test]
fn square_values() {
    assert_eq!(square(0), 0);
    assert_eq!(square(7), 49);
    assert_eq!(square(11), 121);
}

#[test]
fn rectangular_coefficients() {
    let l = Laplace2dMatrix::rectangular(3, 4);
    assert_eq!(l.n_x, 3);
    assert_eq!(l.n_y, 4);
    assert_eq!(l.n, 12);
    assert_eq!(l.tri_diag, 16);
    assert_eq!(l.side_diag, 25);
    assert_eq!(l.diag, -82);
}

#[test]
fn quadratic_is_square_rectangular() {
    assert_eq!(Laplace2dMatrix::quadratic(10), Laplace2dMatrix::rectangular(10, 10));
    let l = Laplace2dMatrix::quadratic(10);
    assert_eq!(l.n, 100);
    assert_eq!(l.tri_diag, 121);
    assert_eq!(l.side_diag, 121);
    assert_eq!(l.diag, -484);
}

#[test]
fn identical_buffers_match_dense_matrix() {
    let l = Laplace2dMatrix::rectangular(3, 3);
    let x = ramp(9, -4, 3);
    let r = calculate_residual_squared(&l, &x, &x).unwrap();
    assert_eq!(r.points, 9);
    assert_eq!(r.sum_of_squares, dense_reference(&l, &x, &x));
}

#[test]
fn rectangular_grids_match_dense_matrix() {
    for (n_x, n_y) in [(1, 1), (1, 5), (5, 1), (2, 3), (4, 2), (3, 5)] {
        let l = Laplace2dMatrix::rectangular(n_x, n_y);
        let x = ramp(l.n, 7, -2);
        let b = ramp(l.n, -3, 5);
        let r = calculate_residual_squared(&l, &x, &b).unwrap();
        assert_eq!(r.points, n_x * n_y);
        assert_eq!(r.sum_of_squares, dense_reference(&l, &x, &b));
    }
}

#[test]
fn zero_buffers_give_zero() {
    let l = Laplace2dMatrix::rectangular(3, 4);
    let z = vec![0; 12];
    let r = calculate_residual_squared(&l, &z, &z);
    assert_eq!(r, Some(ResidualSquared { sum_of_squares: 0, points: 12 }));
}

#[test]
fn zero_x_constant_b_gives_c_squared() {
    let l = Laplace2dMatrix::rectangular(3, 3);
    let x = vec![0; 9];
    let b = vec![5; 9];
    let r = calculate_residual_squared(&l, &x, &b).unwrap();
    assert_eq!(r, ResidualSquared { sum_of_squares: 225, points: 9 });
    assert_eq!(r.sum_of_squares / r.points as u128, 25);
}

#[test]
fn quadratic_entry_matches_general() {
    let x = ramp(100, -50, 1);
    let b = ramp(100, 20, -3);
    let general = calculate_residual_squared(&Laplace2dMatrix::quadratic(10), &x, &b);
    let direct = calculate_residual_squared_quadratic(10, &x, &b);
    assert!(direct.is_some());
    assert_eq!(direct, general);
    assert_eq!(
        direct.unwrap().sum_of_squares,
        dense_reference(&Laplace2dMatrix::quadratic(10), &x, &b)
    );
    let same = vec![1; 100];
    assert_eq!(
        calculate_residual_squared_quadratic(10, &same, &same),
        calculate_residual_squared(&Laplace2dMatrix::quadratic(10), &same, &same)
    );
}

#[test]
fn two_by_two_neighbours() {
    let l = Laplace2dMatrix::rectangular(2, 2);
    assert_eq!(
        l.neighbors(0),
        Neighbors { left: None, right: Some(1), up: None, down: Some(2) }
    );
    assert_eq!(
        l.neighbors(1),
        Neighbors { left: Some(0), right: None, up: None, down: Some(3) }
    );
    assert_eq!(
        l.neighbors(2),
        Neighbors { left: None, right: Some(3), up: Some(0), down: None }
    );
    assert_eq!(
        l.neighbors(3),
        Neighbors { left: Some(2), right: None, up: Some(1), down: None }
    );
}

#[test]
fn two_by_two_residual() {
    // diag -36, tri_diag 9, side_diag 9
    let l = Laplace2dMatrix::rectangular(2, 2);
    let x = vec![1, 2, 3, 4];
    let b = vec![0, 0, 0, 0];
    // point 0: -36 + 2*9 + 3*9 = 9
    // point 1: -72 + 1*9 + 4*9 = -27
    // point 2: -108 + 4*9 + 1*9 = -63
    // point 3: -144 + 3*9 + 2*9 = -99
    let r = calculate_residual_squared(&l, &x, &b).unwrap();
    assert_eq!(r.sum_of_squares, 81 + 729 + 3969 + 9801);
    assert_eq!(r.points, 4);
}

#[test]
fn single_row_and_column_neighbours() {
    let row = Laplace2dMatrix::rectangular(4, 1);
    assert_eq!(
        row.neighbors(0),
        Neighbors { left: None, right: Some(1), up: None, down: None }
    );
    assert_eq!(
        row.neighbors(3),
        Neighbors { left: Some(2), right: None, up: None, down: None }
    );
    let col = Laplace2dMatrix::rectangular(1, 4);
    assert_eq!(
        col.neighbors(0),
        Neighbors { left: None, right: None, up: None, down: Some(1) }
    );
    assert_eq!(
        col.neighbors(2),
        Neighbors { left: None, right: None, up: Some(1), down: Some(3) }
    );
}

#[test]
fn no_wrap_between_rows() {
    let l = Laplace2dMatrix::rectangular(3, 3);
    assert_eq!(l.neighbors(2).right, None);
    assert_eq!(l.neighbors(3).left, None);
    assert_eq!(
        l.neighbors(4),
        Neighbors { left: Some(3), right: Some(5), up: Some(1), down: Some(7) }
    );
}

#[test]
fn scaling_scales_by_k_squared() {
    let l = Laplace2dMatrix::rectangular(3, 3);
    let x = ramp(9, 1, 2);
    let b = ramp(9, -6, 1);
    let k = 3;
    let kx: Vec<i32> = x.iter().map(|v| k * v).collect();
    let kb: Vec<i32> = b.iter().map(|v| k * v).collect();
    let r = calculate_residual_squared(&l, &x, &b).unwrap();
    let rk = calculate_residual_squared(&l, &kx, &kb).unwrap();
    assert_eq!(rk.points, r.points);
    assert_eq!(rk.sum_of_squares, 9 * r.sum_of_squares);
    assert!(r.sum_of_squares > 0);
}

#[test]
fn overflowing_sum_is_none() {
    let l = Laplace2dMatrix { n_x: 1, n_y: 1, n: 1, diag: i64::MAX, tri_diag: 0, side_diag: 0 };
    let x = vec![i32::MAX];
    let b = vec![0];
    assert_eq!(calculate_residual_squared(&l, &x, &b), None);
}

#[test]
fn largest_sum_that_fits() {
    // (2^32 · 2^31 − 0)² = 2^126 per point, four points: 2^128 overflows
    let l = Laplace2dMatrix { n_x: 2, n_y: 2, n: 4, diag: 1 << 32, tri_diag: 0, side_diag: 0 };
    let x = vec![i32::MIN; 4];
    let b = vec![0; 4];
    assert_eq!(calculate_residual_squared(&l, &x, &b), None);
    let x3 = vec![i32::MIN, i32::MIN, i32::MIN, 0];
    assert_eq!(
        calculate_residual_squared(&l, &x3, &b),
        Some(ResidualSquared { sum_of_squares: 3 << 126, points: 4 })
    );
}
