use infinite_arrays::{
    check_arguments, create_diagonal_operator, create_tridiagonal_operator, iqr_algorithm,
    iqr_spectrum, largest_size, qr_decomposition, select_shift, InfiniteOperator, IqrError, Scalar,
    SquareMatrix,
};
use num_complex::Complex64;
use std::cell::Cell;

#[derive(Clone, Copy, Debug, PartialEq)]
struct C(Complex64);

fn c(re: f64, im: f64) -> C {
    C(Complex64::new(re, im))
}

impl Scalar for C {
    fn spec_zero() -> Self {
        Self::zero()
    }
    fn spec_one() -> Self {
        Self::one()
    }
    fn sum(self, o: Self) -> Self {
        self.plus(&o)
    }
    fn difference(self, o: Self) -> Self {
        self.minus(&o)
    }
    fn product(self, o: Self) -> Self {
        self.times(&o)
    }
    fn quotient(self, o: Self) -> Self {
        self.divided_by(&o)
    }
    fn conj(self) -> Self {
        self.conjugate()
    }
    fn modulus_of(self) -> Self {
        self.modulus()
    }
    fn sqrt_re(self) -> Self {
        self.sqrt_of_real_part()
    }
    fn below(self, o: Self) -> bool {
        self.real_below(&o)
    }
    fn negligible(self) -> bool {
        self.is_negligible()
    }
    fn zero() -> Self {
        c(0.0, 0.0)
    }
    fn one() -> Self {
        c(1.0, 0.0)
    }
    fn plus(&self, o: &Self) -> Self {
        C(self.0 + o.0)
    }
    fn minus(&self, o: &Self) -> Self {
        C(self.0 - o.0)
    }
    fn times(&self, o: &Self) -> Self {
        C(self.0 * o.0)
    }
    fn divided_by(&self, o: &Self) -> Self {
        C(self.0 / o.0)
    }
    fn conjugate(&self) -> Self {
        C(self.0.conj())
    }
    fn modulus(&self) -> Self {
        c(self.0.norm(), 0.0)
    }
    fn sqrt_of_real_part(&self) -> Self {
        c(self.0.re.sqrt(), 0.0)
    }
    fn real_below(&self, o: &Self) -> bool {
        self.0.re < o.0.re
    }
    fn is_negligible(&self) -> bool {
        !(self.0.re > 1e-10)
    }
}

#[test]
fn diagonal_truncation_has_positions_on_diagonal() {
    let mut op = create_diagonal_operator(|k: usize| c((k + 1) as f64, 0.0), C::zero());
    let m = op.get_truncation(6);
    assert_eq!(m.size_of(), 6);
    for i in 0..6 {
        for j in 0..6 {
            if i == j {
                assert_eq!(m.at(i, j), c((i + 1) as f64, 0.0));
            } else {
                assert_eq!(m.at(i, j), c(0.0, 0.0));
            }
        }
    }
}

#[test]
fn first_value_is_frozen() {
    let calls = Cell::new(0usize);
    let mut op = InfiniteOperator::new(|i: usize, j: usize| {
        calls.set(calls.get() + 1);
        c((i * 10 + j) as f64 + calls.get() as f64, 0.0)
    });
    let a = op.get(2, 3);
    let b = op.get(2, 3);
    assert_eq!(a, b);
    assert_eq!(calls.get(), 1);
    let m = op.get_truncation(4);
    assert_eq!(m.at(2, 3), a);
    assert_eq!(calls.get(), 16);
}

#[test]
fn tridiagonal_entries() {
    let mut op = create_tridiagonal_operator(
        |k: usize| c(k as f64, 0.0),
        Some(|k: usize| c(100.0 + k as f64, 0.0)),
        None::<fn(usize) -> C>,
        C::zero(),
    );
    assert_eq!(op.get(3, 3), c(3.0, 0.0));
    assert_eq!(op.get(3, 4), c(103.0, 0.0));
    assert_eq!(op.get(4, 3), c(0.0, 0.0));
    assert_eq!(op.get(0, 2), c(0.0, 0.0));
    assert_eq!(op.get(usize::MAX, 0), c(0.0, 0.0));
}

#[test]
fn diagonal_operator_converges_to_its_entries() {
    let n = 8;
    let mut op = create_diagonal_operator(|k: usize| c((k + 1) as f64, 0.0), C::zero());
    let res = iqr_algorithm(&mut op, n, 500, c(1e-10, 0.0), None, false).unwrap();
    assert!(res.converged);
    assert!(res.iterations <= 10);
    assert!(res.residual.is_some());
    assert!(res.eigenvectors.is_none());
    assert_eq!(res.eigenvalues.len(), n);
    for (k, v) in res.eigenvalues.iter().enumerate() {
        let expected = (n - k) as f64;
        assert!((v.0 - Complex64::new(expected, 0.0)).norm() < 1e-10);
    }
}

#[test]
fn hermitian_tridiagonal_spectrum_is_real_and_inside_band() {
    let tol = 1e-10;
    for &n in &[1usize, 2, 5, 12] {
        let mut op = create_tridiagonal_operator(
            |_k: usize| c(2.0, 0.0),
            Some(|_k: usize| c(-1.0, 0.0)),
            Some(|_k: usize| c(-1.0, 0.0)),
            C::zero(),
        );
        let res = iqr_algorithm(&mut op, n, 500, c(tol, 0.0), None, true).unwrap();
        assert_eq!(res.eigenvalues.len(), n);
        for v in &res.eigenvalues {
            assert!(v.0.im.abs() < tol);
            assert!(v.0.re > 0.0 && v.0.re < 4.0);
        }
        let q = res.eigenvectors.unwrap();
        assert_eq!(q.size_of(), n);
    }
}

#[test]
fn spectrum_over_three_sizes() {
    let mut op = create_tridiagonal_operator(
        |_k: usize| c(2.0, 0.0),
        Some(|_k: usize| c(-1.0, 0.0)),
        Some(|_k: usize| c(-1.0, 0.0)),
        C::zero(),
    );
    let sizes = vec![20usize, 50, 100];
    let res = iqr_spectrum(&mut op, &sizes, 2, c(1e-10, 0.0)).unwrap();
    assert_eq!(res.eigenvalues_by_n.len(), 3);
    for s in &sizes {
        assert!(res.eigenvalues_by_n.contains_key(s));
    }
    assert_eq!(res.recommended_n, 100);
    assert_eq!(res.eigenvalues.len(), 100);
    assert!(!res.converged);
    assert!(res.eigenvalues_by_n.values().any(|r| !r.converged));
}

#[test]
fn spectrum_converged_when_every_run_converges() {
    let mut op = create_diagonal_operator(|k: usize| c((k + 1) as f64, 0.0), C::zero());
    let res = iqr_spectrum(&mut op, &vec![3usize, 6, 4], 50, c(1e-10, 0.0)).unwrap();
    assert!(res.converged);
    assert_eq!(res.recommended_n, 6);
    assert_eq!(res.eigenvalues[0], c(6.0, 0.0));
}

#[test]
fn single_entry_block_runs() {
    let mut op = create_diagonal_operator(|_k: usize| c(7.0, 2.0), C::zero());
    let res = iqr_algorithm(&mut op, 1, 5, c(1e-10, 0.0), None, false).unwrap();
    assert_eq!(res.eigenvalues, vec![c(7.0, 2.0)]);
    assert!(res.converged);
    assert_eq!(res.iterations, 1);
    let m = SquareMatrix::filled(1, c(7.0, 2.0));
    assert_eq!(select_shift(&m, None), c(7.0, 2.0));
    assert_eq!(select_shift(&m, Some(c(1.0, 1.0))), c(1.0, 1.0));
}

#[test]
fn wilkinson_shift_picks_root_nearest_corner() {
    // trailing block [[2, 1], [1, 2]] has eigenvalues 1 and 3; both are at
    // distance 1 from the corner, so the first root, 3, is kept
    let mut m = SquareMatrix::filled(2, c(1.0, 0.0));
    m.put(0, 0, c(2.0, 0.0));
    m.put(1, 1, c(2.0, 0.0));
    assert_eq!(select_shift(&m, None), c(3.0, 0.0));
    // [[1, 0], [0, 5]]: eigenvalues 1 and 5, nearest the corner 5 is 5
    let mut d = SquareMatrix::filled(2, c(0.0, 0.0));
    d.put(0, 0, c(1.0, 0.0));
    d.put(1, 1, c(5.0, 0.0));
    assert_eq!(select_shift(&d, None), c(5.0, 0.0));
    // [[0, -1], [1, 0]]: negative discriminant falls back to half the trace
    let mut rot = SquareMatrix::filled(2, c(0.0, 0.0));
    rot.put(0, 1, c(-1.0, 0.0));
    rot.put(1, 0, c(1.0, 0.0));
    assert_eq!(select_shift(&rot, None), c(0.0, 0.0));
}

#[test]
fn qr_factors_reproduce_matrix() {
    let mut a = SquareMatrix::filled(3, c(0.0, 0.0));
    let vals = [[4.0, 1.0, 2.0], [1.0, 3.0, 0.5], [2.0, 0.5, 5.0]];
    for i in 0..3 {
        for j in 0..3 {
            a.put(i, j, c(vals[i][j], 0.0));
        }
    }
    let (q, r) = qr_decomposition(&a);
    for i in 0..3 {
        for j in 0..3 {
            let mut s = Complex64::new(0.0, 0.0);
            for k in 0..3 {
                s += q.at(i, k).0 * r.at(k, j).0;
            }
            assert!((s - Complex64::new(vals[i][j], 0.0)).norm() < 1e-9);
            if i > j {
                assert_eq!(r.at(i, j), c(0.0, 0.0));
            }
        }
    }
}

#[test]
fn degenerate_column_becomes_unit_vector() {
    let a = SquareMatrix::filled(2, c(1.0, 0.0));
    let (q, r) = qr_decomposition(&a);
    assert_eq!(r.at(1, 1), c(0.0, 0.0));
    assert_eq!(q.at(1, 1), c(1.0, 0.0));
    assert_eq!(q.at(0, 1), c(0.0, 0.0));
}

#[test]
fn invalid_arguments_are_rejected_before_sampling() {
    let calls = Cell::new(0usize);
    let mut op = InfiniteOperator::new(|i: usize, j: usize| {
        calls.set(calls.get() + 1);
        c((i + j) as f64, 0.0)
    });
    assert_eq!(iqr_algorithm(&mut op, 0, 10, c(1e-10, 0.0), None, false).err(), Some(IqrError::ZeroSize));
    assert_eq!(
        iqr_algorithm(&mut op, 3, 0, c(1e-10, 0.0), None, false).err(),
        Some(IqrError::ZeroIterations)
    );
    assert_eq!(
        iqr_algorithm(&mut op, 3, 10, c(0.0, 0.0), None, false).err(),
        Some(IqrError::NonPositiveTolerance)
    );
    assert_eq!(
        iqr_algorithm(&mut op, 3, 10, c(-1.0, 0.0), None, false).err(),
        Some(IqrError::NonPositiveTolerance)
    );
    assert_eq!(
        iqr_spectrum(&mut op, &vec![4usize, 0], 10, c(1e-10, 0.0)).err(),
        Some(IqrError::ZeroSize)
    );
    assert_eq!(
        iqr_spectrum(&mut op, &vec![4usize], 0, c(1e-10, 0.0)).err(),
        Some(IqrError::ZeroIterations)
    );
    assert_eq!(
        iqr_spectrum(&mut op, &vec![4usize], 10, c(0.0, 0.0)).err(),
        Some(IqrError::NonPositiveTolerance)
    );
    assert_eq!(
        iqr_spectrum(&mut op, &Vec::<usize>::new(), 10, c(1e-10, 0.0)).err(),
        Some(IqrError::NoSizes)
    );
    assert_eq!(calls.get(), 0);
}

#[test]
fn eigenvalues_follow_descending_modulus() {
    let mut op = create_diagonal_operator(
        |k: usize| [c(1.0, 0.0), c(-5.0, 0.0), c(0.0, 3.0), c(2.0, 0.0)][k % 4],
        C::zero(),
    );
    let res = iqr_algorithm(&mut op, 4, 50, c(1e-10, 0.0), Some(c(0.5, 0.0)), false).unwrap();
    let moduli: Vec<f64> = res.eigenvalues.iter().map(|v| v.0.norm()).collect();
    for k in 0..3 {
        assert!(moduli[k] >= moduli[k + 1]);
    }
    assert!((moduli[0] - 5.0).abs() < 1e-9);
    assert!(res.residual.unwrap().0.re < 1e-10);
}

#[test]
fn argument_check_order() {
    assert_eq!(check_arguments(0, 0, false), Err(IqrError::ZeroSize));
    assert_eq!(check_arguments(1, 0, false), Err(IqrError::ZeroIterations));
    assert_eq!(check_arguments(1, 1, false), Err(IqrError::NonPositiveTolerance));
    assert_eq!(check_arguments(1, 1, true), Ok(()));
}

#[test]
fn largest_of_sizes() {
    assert_eq!(largest_size(&vec![20, 100, 50]), 100);
    assert_eq!(largest_size(&vec![7]), 7);
}
