//! The shifted QR iteration on leading blocks of an infinite operator, and
//! its run over several block sizes.
use vstd::prelude::*;
use std::collections::HashMap;
use crate::operator::{InfiniteOperator, Sampler, SquareMatrix};

verus! {

broadcast use vstd::std_specs::hash::group_hash_axioms;

/// The arithmetic the iteration runs on: a complex field whose real values
/// (moduli, norms, the tolerance) are elements with a zero imaginary part.
///
/// Each operation is a pure function of its arguments: it returns the value
/// of its spec counterpart, so equal arguments give equal results.
pub trait Scalar: Sized + Copy {
    spec fn spec_zero() -> Self;

    spec fn spec_one() -> Self;

    spec fn sum(self, o: Self) -> Self;

    spec fn difference(self, o: Self) -> Self;

    spec fn product(self, o: Self) -> Self;

    spec fn quotient(self, o: Self) -> Self;

    spec fn conj(self) -> Self;

    spec fn modulus_of(self) -> Self;

    spec fn sqrt_re(self) -> Self;

    /// The real part is below the real part of `o`.
    spec fn below(self, o: Self) -> bool;

    /// A column norm at or below the degeneracy threshold.
    spec fn negligible(self) -> bool;

    fn zero() -> (r: Self)
        ensures
            r == Self::spec_zero(),
    ;

    fn one() -> (r: Self)
        ensures
            r == Self::spec_one(),
    ;

    fn plus(&self, o: &Self) -> (r: Self)
        ensures
            r == self.sum(*o),
    ;

    fn minus(&self, o: &Self) -> (r: Self)
        ensures
            r == self.difference(*o),
    ;

    fn times(&self, o: &Self) -> (r: Self)
        ensures
            r == self.product(*o),
    ;

    fn divided_by(&self, o: &Self) -> (r: Self)
        ensures
            r == self.quotient(*o),
    ;

    fn conjugate(&self) -> (r: Self)
        ensures
            r == self.conj(),
    ;

    /// The modulus, as a real element.
    fn modulus(&self) -> (r: Self)
        ensures
            r == self.modulus_of(),
    ;

    /// The square root of the real part, as a real element.
    fn sqrt_of_real_part(&self) -> (r: Self)
        ensures
            r == self.sqrt_re(),
    ;

    /// Whether the real part is below the real part of `o`.
    fn real_below(&self, o: &Self) -> (r: bool)
        ensures
            r == self.below(*o),
    ;

    /// Whether a column norm (a real element) is at or below the threshold
    /// under which the decomposition treats the column as degenerate.
    fn is_negligible(&self) -> (r: bool)
        ensures
            r == self.negligible(),
    ;
}

/// Why a run was refused before any work.
#[derive(Debug, Clone, Copy, PartialEq, Eq, Structural)]
pub enum IqrError {
    /// The block size is zero.
    ZeroSize,
    /// The iteration cap is zero.
    ZeroIterations,
    /// The tolerance is zero or negative.
    NonPositiveTolerance,
    /// No block size was given.
    NoSizes,
}

/// The outcome of one run of the iteration.
pub struct IqrResult<T> {
    /// The diagonal of the last iterate, by descending modulus.
    pub eigenvalues: Vec<T>,
    /// The product of the orthonormal factors, when asked for; its columns
    /// follow the diagonal of the last iterate, not the sorted eigenvalues.
    pub eigenvectors: Option<SquareMatrix<T>>,
    pub iterations: usize,
    pub converged: bool,
    /// The largest off-diagonal modulus of the last iterate, when converged.
    pub residual: Option<T>,
}

/// The error, if any, for a block size, an iteration cap and whether the
/// tolerance is positive; the size is checked first, then the cap.
pub open spec fn argument_error(n: nat, max_iter: nat, tol_positive: bool) -> Option<IqrError> {
    if n == 0 {
        Some(IqrError::ZeroSize)
    } else if max_iter == 0 {
        Some(IqrError::ZeroIterations)
    } else if !tol_positive {
        Some(IqrError::NonPositiveTolerance)
    } else {
        None
    }
}

/// Refuses a zero block size, a zero iteration cap and a tolerance that is
/// not positive.
pub fn check_arguments(n: usize, max_iter: usize, tol_positive: bool) -> (r: Result<(), IqrError>)
    ensures
        r is Ok <==> argument_error(n as nat, max_iter as nat, tol_positive) is None,
        r matches Err(e) ==> argument_error(n as nat, max_iter as nat, tol_positive) == Some(e),
{
    if n == 0 {
        Err(IqrError::ZeroSize)
    } else if max_iter == 0 {
        Err(IqrError::ZeroIterations)
    } else if !tol_positive {
        Err(IqrError::NonPositiveTolerance)
    } else {
        Ok(())
    }
}

/// The eigenvalue of the 2-by-2 block `[[a, b], [c, d]]` nearest `d` (the
/// root with the `+` sign on a tie), or half its trace when the discriminant
/// `trace^2 - 4 det` has a negative real part.
pub open spec fn wilkinson_spec<T: Scalar>(a: T, b: T, c: T, d: T) -> T {
    let two = T::spec_one().sum(T::spec_one());
    let four = two.sum(two);
    let trace = a.sum(d);
    let det = a.product(d).difference(b.product(c));
    let discriminant = trace.product(trace).difference(four.product(det));
    if !discriminant.below(T::spec_zero()) {
        let root = discriminant.sqrt_re();
        let lambda1 = trace.sum(root).quotient(two);
        let lambda2 = trace.difference(root).quotient(two);
        if lambda2.difference(d).modulus_of().below(lambda1.difference(d).modulus_of()) {
            lambda2
        } else {
            lambda1
        }
    } else {
        trace.quotient(two)
    }
}

fn wilkinson_shift<T: Scalar>(a: T, b: T, c: T, d: T) -> (r: T)
    ensures
        r == wilkinson_spec(a, b, c, d),
{
    let two = T::one().plus(&T::one());
    let four = two.plus(&two);
    let trace = a.plus(&d);
    let det = a.times(&d).minus(&b.times(&c));
    let discriminant = trace.times(&trace).minus(&four.times(&det));
    if !discriminant.real_below(&T::zero()) {
        let root = discriminant.sqrt_of_real_part();
        let lambda1 = trace.plus(&root).divided_by(&two);
        let lambda2 = trace.minus(&root).divided_by(&two);
        let dist1 = lambda1.minus(&d).modulus();
        let dist2 = lambda2.minus(&d).modulus();
        if dist2.real_below(&dist1) {
            lambda2
        } else {
            lambda1
        }
    } else {
        trace.divided_by(&two)
    }
}

/// The shift of one step: the fixed shift when given; else, for a 1-by-1
/// iterate, its single entry; else the Wilkinson shift of the trailing
/// 2-by-2 block.
pub fn select_shift<T: Scalar>(a: &SquareMatrix<T>, shift: Option<T>) -> (r: T)
    requires
        a.wf(),
        a.size() >= 1,
    ensures
        shift matches Some(s) ==> r == s,
        shift is None && a.size() == 1 ==> r == a.entry(0, 0),
        shift is None && a.size() >= 2 ==> r == wilkinson_spec(
            a.entry(a.size() - 2, a.size() - 2),
            a.entry(a.size() - 2, a.size() - 1),
            a.entry(a.size() - 1, a.size() - 2),
            a.entry(a.size() - 1, a.size() - 1),
        ),
{
    match shift {
        Some(s) => s,
        None => {
            let n = a.size_of();
            if n >= 2 {
                wilkinson_shift(
                    a.at(n - 2, n - 2),
                    a.at(n - 2, n - 1),
                    a.at(n - 1, n - 2),
                    a.at(n - 1, n - 1),
                )
            } else {
                a.at(0, 0)
            }
        },
    }
}

/// `a` with `delta` added to every diagonal entry.
fn add_to_diagonal<T: Scalar>(a: &mut SquareMatrix<T>, delta: T)
    requires
        old(a).wf(),
    ensures
        final(a).wf(),
        final(a).size() == old(a).size(),
        forall|i: int, j: int|
            0 <= i < old(a).size() && 0 <= j < old(a).size() && i != j ==> #[trigger] final(a).entry(
                i,
                j,
            ) == old(a).entry(i, j),
{
    let n = a.size_of();
    let mut i: usize = 0;
    while i < n
        invariant
            a.wf(),
            a.size() == n,
            i <= n,
            forall|p: int, q: int|
                0 <= p < n && 0 <= q < n && p != q ==> #[trigger] a.entry(p, q) == old(a).entry(p, q),
        decreases n - i,
    {
        let v = a.at(i, i).plus(&delta);
        a.put(i, i, v);
        i = i + 1;
    }
}

/// The matrix product `a * b`.
fn multiply<T: Scalar>(a: &SquareMatrix<T>, b: &SquareMatrix<T>) -> (c: SquareMatrix<T>)
    requires
        a.wf(),
        b.wf(),
        a.size() == b.size(),
    ensures
        c.wf(),
        c.size() == a.size(),
{
    let n = a.size_of();
    let mut c = SquareMatrix::filled(n, T::zero());
    let mut i: usize = 0;
    while i < n
        invariant
            a.wf(),
            b.wf(),
            c.wf(),
            a.size() == n,
            b.size() == n,
            c.size() == n,
            i <= n,
        decreases n - i,
    {
        let mut j: usize = 0;
        while j < n
            invariant
                a.wf(),
                b.wf(),
                c.wf(),
                a.size() == n,
                b.size() == n,
                c.size() == n,
                i < n,
                j <= n,
            decreases n - j,
        {
            let mut sum = T::zero();
            let mut k: usize = 0;
            while k < n
                invariant
                    a.wf(),
                    b.wf(),
                    a.size() == n,
                    b.size() == n,
                    i < n,
                    j < n,
                    k <= n,
                decreases n - k,
            {
                sum = sum.plus(&a.at(i, k).times(&b.at(k, j)));
                k = k + 1;
            }
            c.put(i, j, sum);
            j = j + 1;
        }
        i = i + 1;
    }
    c
}

/// Column `j` of `a`.
pub open spec fn column<T: Scalar>(a: SquareMatrix<T>, j: int) -> Seq<T> {
    Seq::new(a.size(), |k: int| a.entry(k, j))
}

/// The first `len` terms of the inner product of column `i` of `q` with `v`,
/// conjugating `q`, summed from the top.
pub open spec fn projection<T: Scalar>(q: SquareMatrix<T>, i: int, v: Seq<T>, len: nat) -> T
    decreases len,
{
    if len == 0 {
        T::spec_zero()
    } else {
        projection(q, i, v, (len - 1) as nat).sum(
            q.entry(len - 1, i).conj().product(v[len - 1]),
        )
    }
}

/// `v` less `c` times column `i` of `q`.
pub open spec fn remove_component<T: Scalar>(q: SquareMatrix<T>, i: int, v: Seq<T>, c: T) -> Seq<T> {
    Seq::new(v.len(), |k: int| v[k].difference(q.entry(k, i).product(c)))
}

/// Column `j` of `a` after its components along columns `0..i` of `q` were
/// removed, one after the other.
pub open spec fn remainder<T: Scalar>(a: SquareMatrix<T>, q: SquareMatrix<T>, j: int, i: nat) -> Seq<T>
    decreases i,
{
    if i == 0 {
        column(a, j)
    } else {
        let v = remainder(a, q, j, (i - 1) as nat);
        remove_component(q, i - 1, v, projection(q, i - 1, v, a.size()))
    }
}

/// The sum of the squared moduli of the first `len` entries of `v`.
pub open spec fn square_sum<T: Scalar>(v: Seq<T>, len: nat) -> T
    decreases len,
{
    if len == 0 {
        T::spec_zero()
    } else {
        square_sum(v, (len - 1) as nat).sum(v[len - 1].modulus_of().product(v[len - 1].modulus_of()))
    }
}

/// The Euclidean norm of `v`, as a real element.
pub open spec fn norm_of<T: Scalar>(v: Seq<T>) -> T {
    square_sum(v, v.len()).sqrt_re()
}

/// Column `j` of the factors `q` and `r` of `a`: above the diagonal, `r`
/// holds the projection coefficients; on it, the norm of the remainder, with
/// `q`'s column the remainder over its norm; or, for a negligible norm, zero
/// in `r` and the unit vector `e_j` in `q`.
pub open spec fn column_rule<T: Scalar>(
    a: SquareMatrix<T>,
    q: SquareMatrix<T>,
    r: SquareMatrix<T>,
    j: int,
) -> bool {
    let n = a.size();
    let v = remainder(a, q, j, j as nat);
    let norm = norm_of(v);
    &&& forall|i: int|
        0 <= i < j ==> #[trigger] r.entry(i, j) == projection(q, i, remainder(a, q, j, i as nat), n)
    &&& !norm.negligible() ==> r.entry(j, j) == norm && forall|k: int|
        0 <= k < n ==> #[trigger] q.entry(k, j) == v[k].quotient(norm)
    &&& norm.negligible() ==> r.entry(j, j) == T::spec_zero() && forall|k: int|
        0 <= k < n ==> #[trigger] q.entry(k, j) == (if k == j {
            T::spec_one()
        } else {
            T::spec_zero()
        })
}

proof fn lemma_projection_frame<T: Scalar>(
    q1: SquareMatrix<T>,
    q2: SquareMatrix<T>,
    i: int,
    v: Seq<T>,
    len: nat,
)
    requires
        forall|k: int| 0 <= k < len ==> #[trigger] q1.entry(k, i) == q2.entry(k, i),
    ensures
        projection(q1, i, v, len) == projection(q2, i, v, len),
    decreases len,
{
    if len > 0 {
        lemma_projection_frame(q1, q2, i, v, (len - 1) as nat);
        assert(q1.entry(len - 1, i) == q2.entry(len - 1, i));
    }
}

proof fn lemma_remainder_frame<T: Scalar>(
    a: SquareMatrix<T>,
    q1: SquareMatrix<T>,
    q2: SquareMatrix<T>,
    j: int,
    i: nat,
)
    requires
        forall|k: int, c: int| 0 <= k < a.size() && 0 <= c < i ==> #[trigger] q1.entry(k, c) == q2.entry(k, c),
    ensures
        remainder(a, q1, j, i) == remainder(a, q2, j, i),
    decreases i,
{
    if i > 0 {
        lemma_remainder_frame(a, q1, q2, j, (i - 1) as nat);
        let v = remainder(a, q1, j, (i - 1) as nat);
        assert forall|k: int| 0 <= k < a.size() implies #[trigger] q1.entry(k, i - 1) == q2.entry(k, i - 1) by {
            assert(q1.entry(k, i - 1) == q2.entry(k, i - 1));
        }
        lemma_projection_frame(q1, q2, i - 1, v, a.size());
        let c = projection(q1, i - 1, v, a.size());
        assert(remove_component(q1, i - 1, v, c) =~= remove_component(q2, i - 1, v, c)) by {
            assert(column(a, j).len() == a.size());
            lemma_remainder_len(a, q1, j, (i - 1) as nat);
        }
    }
}

proof fn lemma_remainder_len<T: Scalar>(a: SquareMatrix<T>, q: SquareMatrix<T>, j: int, i: nat)
    ensures
        remainder(a, q, j, i).len() == a.size(),
    decreases i,
{
    if i > 0 {
        lemma_remainder_len(a, q, j, (i - 1) as nat);
    }
}

proof fn lemma_rule_frame<T: Scalar>(
    a: SquareMatrix<T>,
    q1: SquareMatrix<T>,
    r1: SquareMatrix<T>,
    q2: SquareMatrix<T>,
    r2: SquareMatrix<T>,
    j: int,
)
    requires
        0 <= j,
        column_rule(a, q1, r1, j),
        forall|k: int, c: int| 0 <= k < a.size() && 0 <= c <= j ==> #[trigger] q1.entry(k, c) == q2.entry(k, c),
        forall|i: int| 0 <= i <= j ==> #[trigger] r1.entry(i, j) == r2.entry(i, j),
    ensures
        column_rule(a, q2, r2, j),
{
    let n = a.size();
    lemma_remainder_frame(a, q1, q2, j, j as nat);
    assert forall|i: int| 0 <= i < j implies #[trigger] r2.entry(i, j) == projection(
        q2,
        i,
        remainder(a, q2, j, i as nat),
        n,
    ) by {
        lemma_remainder_frame(a, q1, q2, j, i as nat);
        assert forall|k: int| 0 <= k < n implies #[trigger] q1.entry(k, i) == q2.entry(k, i) by {
            assert(q1.entry(k, i) == q2.entry(k, i));
        }
        lemma_projection_frame(q1, q2, i, remainder(a, q1, j, i as nat), n);
        assert(r1.entry(i, j) == r2.entry(i, j));
    }
    assert(r1.entry(j, j) == r2.entry(j, j));
    assert forall|k: int| 0 <= k < n implies #[trigger] q2.entry(k, j) == q1.entry(k, j) by {
        assert(q1.entry(k, j) == q2.entry(k, j));
    }
}

/// Gram-Schmidt on the columns of `a`, left to right, each coefficient taken
/// against the remainder so far: an orthonormal factor `q` and an
/// upper-triangular factor `r`. A column whose remainder has a negligible
/// norm is replaced by the matching unit vector, with a zero diagonal entry
/// in `r`.
pub fn qr_decomposition<T: Scalar>(a: &SquareMatrix<T>) -> (qr: (SquareMatrix<T>, SquareMatrix<T>))
    requires
        a.wf(),
    ensures
        qr.0.wf(),
        qr.1.wf(),
        qr.0.size() == a.size(),
        qr.1.size() == a.size(),
        qr.1.below_diagonal_is(T::spec_zero()),
        forall|j: int| 0 <= j < a.size() ==> #[trigger] column_rule(*a, qr.0, qr.1, j),
{
    let n = a.size_of();
    let z = T::zero();
    let mut q = SquareMatrix::filled(n, T::zero());
    let mut r = SquareMatrix::filled(n, z);
    let mut j: usize = 0;
    while j < n
        invariant
            a.wf(),
            q.wf(),
            r.wf(),
            a.size() == n,
            q.size() == n,
            r.size() == n,
            j <= n,
            z == T::spec_zero(),
            r.below_diagonal_is(z),
            forall|c: int| 0 <= c < j ==> #[trigger] column_rule(*a, q, r, c),
        decreases n - j,
    {
        let mut v: Vec<T> = Vec::new();
        let mut k: usize = 0;
        while k < n
            invariant
                a.wf(),
                a.size() == n,
                j < n,
                k <= n,
                v@ == column(*a, j as int).take(k as int),
            decreases n - k,
        {
            v.push(a.at(k, j));
            k = k + 1;
            assert(v@ =~= column(*a, j as int).take(k as int));
        }
        assert(column(*a, j as int).take(n as int) =~= column(*a, j as int));
        let mut i: usize = 0;
        while i < j
            invariant
                a.wf(),
                q.wf(),
                r.wf(),
                a.size() == n,
                q.size() == n,
                r.size() == n,
                j < n,
                i <= j,
                z == T::spec_zero(),
                v@ == remainder(*a, q, j as int, i as nat),
                forall|p: int|
                    0 <= p < i ==> #[trigger] r.entry(p, j as int) == projection(
                        q,
                        p,
                        remainder(*a, q, j as int, p as nat),
                        n as nat,
                    ),
                r.below_diagonal_is(z),
                forall|c: int| 0 <= c < j ==> #[trigger] column_rule(*a, q, r, c),
            decreases j - i,
        {
            proof {
                lemma_remainder_len(*a, q, j as int, i as nat);
            }
            let mut coeff = T::zero();
            let mut k: usize = 0;
            while k < n
                invariant
                    q.wf(),
                    q.size() == n,
                    i < n,
                    k <= n,
                    v@.len() == n,
                    coeff == projection(q, i as int, v@, k as nat),
                decreases n - k,
            {
                coeff = coeff.plus(&q.at(k, i).conjugate().times(&v[k]));
                k = k + 1;
            }
            let ghost rb = r;
            r.put(i, j, coeff);
            proof {
                assert forall|c: int| 0 <= c < j implies #[trigger] column_rule(*a, q, r, c) by {
                    assert(column_rule(*a, q, rb, c));
                    assert forall|p: int| 0 <= p <= c implies #[trigger] rb.entry(p, c) == r.entry(p, c) by {
                    }
                    lemma_rule_frame(*a, q, rb, q, r, c);
                }
                assert forall|x: int, y: int| 0 <= y < x < n implies #[trigger] r.entry(x, y) == z by {
                    assert(rb.entry(x, y) == z);
                }
                assert(r.below_diagonal_is(z));
            }
            let ghost v0 = v@;
            let mut k: usize = 0;
            while k < n
                invariant
                    q.wf(),
                    q.size() == n,
                    i < n,
                    k <= n,
                    v0.len() == n,
                    v@.len() == n,
                    forall|m: int|
                        0 <= m < k ==> #[trigger] v@[m] == v0[m].difference(
                            q.entry(m, i as int).product(coeff),
                        ),
                    forall|m: int| k <= m < n ==> #[trigger] v@[m] == v0[m],
                decreases n - k,
            {
                let w = v[k].minus(&q.at(k, i).times(&coeff));
                v.set(k, w);
                k = k + 1;
            }
            assert(v@ =~= remove_component(q, i as int, v0, coeff));
            i = i + 1;
        }
        proof {
            lemma_remainder_len(*a, q, j as int, j as nat);
        }
        let mut square_sum_acc = T::zero();
        let mut k: usize = 0;
        while k < n
            invariant
                k <= n,
                v@.len() == n,
                square_sum_acc == square_sum(v@, k as nat),
            decreases n - k,
        {
            let m = v[k].modulus();
            square_sum_acc = square_sum_acc.plus(&m.times(&m));
            k = k + 1;
        }
        let norm = square_sum_acc.sqrt_of_real_part();
        assert(norm == norm_of(v@));
        let ghost qb = q;
        let ghost rb = r;
        if !norm.is_negligible() {
            r.put(j, j, norm);
            let mut k: usize = 0;
            while k < n
                invariant
                    q.wf(),
                    q.size() == n,
                    j < n,
                    k <= n,
                    v@.len() == n,
                    forall|m: int, c: int|
                        0 <= m < n && 0 <= c < n && (c != j || m >= k) ==> #[trigger] q.entry(m, c)
                            == qb.entry(m, c),
                    forall|m: int| 0 <= m < k ==> #[trigger] q.entry(m, j as int) == v@[m].quotient(norm),
                decreases n - k,
            {
                q.put(k, j, v[k].divided_by(&norm));
                k = k + 1;
            }
        } else {
            r.put(j, j, T::zero());
            let mut k: usize = 0;
            while k < n
                invariant
                    q.wf(),
                    q.size() == n,
                    j < n,
                    k <= n,
                    forall|m: int, c: int|
                        0 <= m < n && 0 <= c < n && (c != j || m >= k) ==> #[trigger] q.entry(m, c)
                            == qb.entry(m, c),
                    forall|m: int|
                        0 <= m < k ==> #[trigger] q.entry(m, j as int) == (if m == j {
                            T::spec_one()
                        } else {
                            T::spec_zero()
                        }),
                decreases n - k,
            {
                if k == j {
                    q.put(k, j, T::one());
                } else {
                    q.put(k, j, T::zero());
                }
                k = k + 1;
            }
        }
        proof {
            assert forall|x: int, y: int| 0 <= y < x < n implies #[trigger] r.entry(x, y) == z by {
                assert(rb.entry(x, y) == z);
            }
            assert(r.below_diagonal_is(z));
            assert forall|c: int| 0 <= c < j implies #[trigger] column_rule(*a, q, r, c) by {
                assert(column_rule(*a, qb, rb, c));
                assert forall|m: int, d: int| 0 <= m < n && 0 <= d <= c implies #[trigger] qb.entry(m, d)
                    == q.entry(m, d) by {}
                assert forall|p: int| 0 <= p <= c implies #[trigger] rb.entry(p, c) == r.entry(p, c) by {}
                lemma_rule_frame(*a, qb, rb, q, r, c);
            }
            assert forall|m: int, d: int| 0 <= m < n && 0 <= d < j implies #[trigger] qb.entry(m, d)
                == q.entry(m, d) by {}
            lemma_remainder_frame(*a, qb, q, j as int, j as nat);
            assert forall|p: int| 0 <= p < j implies #[trigger] r.entry(p, j as int) == projection(
                q,
                p,
                remainder(*a, q, j as int, p as nat),
                n as nat,
            ) by {
                assert(rb.entry(p, j as int) == r.entry(p, j as int));
                assert forall|m: int, d: int| 0 <= m < n && 0 <= d < p implies #[trigger] qb.entry(m, d)
                    == q.entry(m, d) by {}
                lemma_remainder_frame(*a, qb, q, j as int, p as nat);
                assert forall|m: int| 0 <= m < n implies #[trigger] qb.entry(m, p) == q.entry(m, p) by {}
                lemma_projection_frame(qb, q, p, remainder(*a, qb, j as int, p as nat), n as nat);
            }
            assert(column_rule(*a, q, r, j as int));
        }
        j = j + 1;
    }
    (q, r)
}

/// The largest modulus among the entries off the diagonal (zero for a
/// 1-by-1 matrix).
fn max_off_diagonal<T: Scalar>(a: &SquareMatrix<T>) -> T
    requires
        a.wf(),
{
    let n = a.size_of();
    let mut best = T::zero();
    let mut i: usize = 0;
    while i < n
        invariant
            a.wf(),
            a.size() == n,
            i <= n,
        decreases n - i,
    {
        let mut j: usize = 0;
        while j < n
            invariant
                a.wf(),
                a.size() == n,
                i < n,
                j <= n,
            decreases n - j,
        {
            if i != j {
                let m = a.at(i, j).modulus();
                if best.real_below(&m) {
                    best = m;
                }
            }
            j = j + 1;
        }
        i = i + 1;
    }
    best
}

proof fn lemma_swap_keeps_multiset<T>(s: Seq<T>, i: int, j: int)
    requires
        0 <= i < s.len(),
        0 <= j < s.len(),
    ensures
        s.update(i, s[j]).update(j, s[i]).to_multiset() == s.to_multiset(),
{
    broadcast use vstd::seq_lib::to_multiset_update;
    broadcast use vstd::multiset::group_multiset_axioms;

    let s1 = s.update(i, s[j]);
    assert(s1.update(j, s[i]).to_multiset() == s1.to_multiset().insert(s[i]).remove(s1[j]));
    assert(s1.to_multiset() == s.to_multiset().insert(s[j]).remove(s[i]));
    if i == j {
        assert(s1 =~= s);
        assert(s1.update(j, s[i]) =~= s);
    } else {
        assert(s1[j] == s[j]);
        assert(s.to_multiset().insert(s[j]).remove(s[i]).insert(s[i]).remove(s[j]) =~= s.to_multiset()) by {
            vstd::seq_lib::to_multiset_contains(s, s[i]);
        }
    }
}

/// `x` may stand before `y` in an order by descending modulus: the modulus
/// `x` is not below `y` unless `y` is also below `x` (which a strict order
/// on real parts rules out).
pub open spec fn not_after<T: Scalar>(x: T, y: T) -> bool {
    x.below(y) ==> y.below(x)
}

/// A sequence ordered by descending modulus, read pair by neighbouring pair.
pub open spec fn ordered_by_modulus<T: Scalar>(s: Seq<T>) -> bool {
    forall|k: int| 0 <= k < s.len() - 1 ==> not_after(#[trigger] s[k].modulus_of(), s[k + 1].modulus_of())
}

/// The diagonal of `a`, ordered by descending modulus; entries of equal
/// modulus keep their order along the diagonal.
fn sorted_diagonal<T: Scalar>(a: &SquareMatrix<T>) -> (r: Vec<T>)
    requires
        a.wf(),
    ensures
        r@.len() == a.size(),
        r@.to_multiset() == a.diagonal().to_multiset(),
        ordered_by_modulus(r@),
{
    let n = a.size_of();
    let mut values: Vec<T> = Vec::new();
    let mut keys: Vec<T> = Vec::new();
    let mut i: usize = 0;
    while i < n
        invariant
            a.wf(),
            a.size() == n,
            i <= n,
            values@.len() == i,
            keys@.len() == i,
            values@ == a.diagonal().take(i as int),
            forall|k: int| 0 <= k < i ==> #[trigger] keys@[k] == values@[k].modulus_of(),
        decreases n - i,
    {
        let v = a.at(i, i);
        values.push(v);
        keys.push(v.modulus());
        i = i + 1;
        assert(values@ =~= a.diagonal().take(i as int));
    }
    assert(a.diagonal().take(n as int) =~= a.diagonal());
    let ghost whole = values@.to_multiset();
    let mut i: usize = 1;
    while i < n
        invariant
            values@.len() == n,
            keys@.len() == n,
            values@.to_multiset() == whole,
            forall|k: int| 0 <= k < n ==> #[trigger] keys@[k] == values@[k].modulus_of(),
            forall|k: int| 0 <= k && k + 1 < i ==> not_after(#[trigger] keys@[k], keys@[k + 1]),
        decreases n - i,
    {
        let mut j: usize = i;
        while j > 0 && keys[j - 1].real_below(&keys[j])
            invariant
                j <= i < n,
                values@.len() == n,
                keys@.len() == n,
                values@.to_multiset() == whole,
                forall|k: int| 0 <= k < n ==> #[trigger] keys@[k] == values@[k].modulus_of(),
                forall|k: int|
                    0 <= k && k + 1 <= i && k != j - 1 ==> not_after(#[trigger] keys@[k], keys@[k + 1]),
                0 < j < i ==> not_after(keys@[j - 1], keys@[j + 1]),
            decreases j,
        {
            let kv = keys[j - 1];
            let kw = keys[j];
            keys.set(j - 1, kw);
            keys.set(j, kv);
            let vv = values[j - 1];
            let vw = values[j];
            proof {
                lemma_swap_keeps_multiset(values@, j - 1, j as int);
            }
            values.set(j - 1, vw);
            values.set(j, vv);
            j = j - 1;
        }
        proof {
            if j > 0 {
                assert(!keys@[j - 1].below(keys@[j as int]));
            }
        }
        i = i + 1;
    }
    proof {
        assert forall|k: int| 0 <= k < n - 1 implies not_after(
            #[trigger] values@[k].modulus_of(),
            values@[k + 1].modulus_of(),
        ) by {
            assert(keys@[k] == values@[k].modulus_of());
            assert(keys@[k + 1] == values@[k + 1].modulus_of());
        }
    }
    values
}

/// What a run of `iqr_algorithm` on an `n`-by-`n` block delivers.
pub open spec fn run_outcome<T: Scalar>(
    res: IqrResult<T>,
    n: nat,
    max_iter: nat,
    tol: T,
    compute_eigenvectors: bool,
) -> bool {
    &&& res.eigenvalues@.len() == n
    &&& ordered_by_modulus(res.eigenvalues@)
    &&& 1 <= res.iterations <= max_iter
    &&& !res.converged ==> res.iterations == max_iter
    &&& res.residual is Some <==> res.converged
    &&& res.residual matches Some(x) ==> x.below(tol)
    &&& res.eigenvectors is Some <==> compute_eigenvectors
    &&& res.eigenvectors matches Some(q) ==> q.wf() && q.size() == n
}

/// One run of the shifted QR iteration on the leading `n`-by-`n` block of
/// `operator`: up to `max_iter` steps, stopping at the first iterate whose
/// largest off-diagonal modulus is below `tol`. Arguments are checked
/// before anything is sampled.
pub fn iqr_algorithm<T: Scalar, S: Sampler<T>>(
    operator: &mut InfiniteOperator<T, S>,
    n: usize,
    max_iter: usize,
    tol: T,
    shift: Option<T>,
    compute_eigenvectors: bool,
) -> (r: Result<IqrResult<T>, IqrError>)
    requires
        old(operator).wf(),
        n * n <= usize::MAX,
    ensures
        final(operator).wf(),
        final(operator).source() == old(operator).source(),
        old(operator).cached() <= final(operator).cached(),
        r is Ok <==> argument_error(n as nat, max_iter as nat, T::spec_zero().below(tol)) is None,
        r matches Err(e) ==> argument_error(n as nat, max_iter as nat, T::spec_zero().below(tol))
            == Some(e) && *final(operator) == *old(operator),
        r matches Ok(res) ==> {
            &&& run_outcome(res, n as nat, max_iter as nat, tol, compute_eigenvectors)
            &&& forall|i: usize, j: usize|
                i < n && j < n ==> #[trigger] final(operator).cached().contains_key((i, j))
        },
{
    let tol_positive = T::zero().real_below(&tol);
    match check_arguments(n, max_iter, tol_positive) {
        Err(e) => {
            return Err(e);
        },
        Ok(()) => {},
    }
    let mut a = operator.get_truncation(n);
    assert forall|i: usize, j: usize| i < n && j < n implies #[trigger] operator.cached().contains_key(
        (i, j),
    ) by {
        assert(operator.cached().contains_key((i as int as usize, j as int as usize)));
    }
    let mut q_total: Option<SquareMatrix<T>> = if compute_eigenvectors {
        let mut eye = SquareMatrix::filled(n, T::zero());
        add_to_diagonal(&mut eye, T::one());
        Some(eye)
    } else {
        None
    };
    let mut iterations: usize = 0;
    let mut converged = false;
    let mut residual: Option<T> = None;
    while iterations < max_iter && !converged
        invariant
            a.wf(),
            a.size() == n,
            n >= 1,
            iterations <= max_iter,
            converged ==> iterations >= 1,
            residual is Some <==> converged,
            residual matches Some(x) ==> x.below(tol),
            !converged ==> residual is None,
            q_total is Some <==> compute_eigenvectors,
            q_total matches Some(q) ==> q.wf() && q.size() == n,
        decreases max_iter - iterations,
    {
        let shift_val = select_shift(&a, shift);
        let mut shifted = a;
        add_to_diagonal(&mut shifted, T::zero().minus(&shift_val));
        let (q, r) = qr_decomposition(&shifted);
        a = multiply(&r, &q);
        add_to_diagonal(&mut a, shift_val);
        q_total = match q_total {
            Some(qt) => Some(multiply(&qt, &q)),
            None => None,
        };
        iterations = iterations + 1;
        let metric = max_off_diagonal(&a);
        if metric.real_below(&tol) {
            converged = true;
            residual = Some(metric);
        }
    }
    let eigenvalues = sorted_diagonal(&a);
    Ok(IqrResult { eigenvalues, eigenvectors: q_total, iterations, converged, residual })
}

/// The runs of the iteration over several block sizes.
pub struct IqrSpectrumResult<T> {
    /// The eigenvalues of the run at the recommended size.
    pub eigenvalues: Vec<T>,
    /// One run per requested size.
    pub eigenvalues_by_n: HashMap<usize, IqrResult<T>>,
    /// Whether every run converged.
    pub converged: bool,
    /// The largest requested size.
    pub recommended_n: usize,
}

fn copy_values<T: Copy>(v: &Vec<T>) -> (r: Vec<T>)
    ensures
        r@ == v@,
{
    let mut r: Vec<T> = Vec::new();
    let mut k: usize = 0;
    while k < v.len()
        invariant
            k <= v@.len(),
            r@ == v@.take(k as int),
        decreases v@.len() - k,
    {
        r.push(v[k]);
        k = k + 1;
        assert(r@ =~= v@.take(k as int));
    }
    assert(v@.take(v@.len() as int) =~= v@);
    r
}

/// The largest of a non-empty list of sizes.
pub fn largest_size(sizes: &Vec<usize>) -> (r: usize)
    requires
        sizes@.len() > 0,
    ensures
        sizes@.contains(r),
        forall|k: int| 0 <= k < sizes@.len() ==> sizes@[k] <= r,
{
    let mut best = sizes[0];
    let mut k: usize = 1;
    while k < sizes.len()
        invariant
            1 <= k <= sizes@.len(),
            sizes@.contains(best),
            forall|m: int| 0 <= m < k ==> sizes@[m] <= best,
        decreases sizes@.len() - k,
    {
        if sizes[k] > best {
            best = sizes[k];
        }
        k = k + 1;
    }
    best
}

/// The error, if any, for a list of block sizes, an iteration cap and
/// whether the tolerance is positive: an empty list first, then a zero
/// size, then the cap, then the tolerance.
pub open spec fn sizes_error(sizes: Seq<usize>, max_iter: nat, tol_positive: bool) -> Option<IqrError> {
    if sizes.len() == 0 {
        Some(IqrError::NoSizes)
    } else if sizes.contains(0) {
        Some(IqrError::ZeroSize)
    } else if max_iter == 0 {
        Some(IqrError::ZeroIterations)
    } else if !tol_positive {
        Some(IqrError::NonPositiveTolerance)
    } else {
        None
    }
}

/// Runs the iteration, without eigenvectors, at each size of `n_range`, and
/// gathers the runs: the recommended size is the largest requested, its
/// eigenvalues are the estimate, and the whole converged when every run did.
/// All arguments are checked before any run.
pub fn iqr_spectrum<T: Scalar, S: Sampler<T>>(
    operator: &mut InfiniteOperator<T, S>,
    n_range: &Vec<usize>,
    max_iter: usize,
    tol: T,
) -> (r: Result<IqrSpectrumResult<T>, IqrError>)
    requires
        old(operator).wf(),
        forall|k: int| 0 <= k < n_range@.len() ==> #[trigger] n_range@[k] * n_range@[k] <= usize::MAX,
    ensures
        final(operator).wf(),
        final(operator).source() == old(operator).source(),
        old(operator).cached() <= final(operator).cached(),
        r is Ok <==> sizes_error(n_range@, max_iter as nat, T::spec_zero().below(tol)) is None,
        r matches Err(e) ==> sizes_error(n_range@, max_iter as nat, T::spec_zero().below(tol))
            == Some(e) && *final(operator) == *old(operator),
        r matches Ok(res) ==> {
            &&& n_range@.contains(res.recommended_n)
            &&& forall|k: int| 0 <= k < n_range@.len() ==> n_range@[k] <= res.recommended_n
            &&& forall|x: usize| #[trigger]
                res.eigenvalues_by_n@.contains_key(x) <==> n_range@.contains(x)
            &&& forall|x: usize| #[trigger]
                res.eigenvalues_by_n@.contains_key(x) ==> run_outcome(
                    res.eigenvalues_by_n@[x],
                    x as nat,
                    max_iter as nat,
                    tol,
                    false,
                )
            &&& res.converged == forall|k: int|
                0 <= k < n_range@.len() ==> #[trigger] res.eigenvalues_by_n@[n_range@[k]].converged
            &&& res.eigenvalues@ == res.eigenvalues_by_n@[res.recommended_n].eigenvalues@
        },
{
    if n_range.len() == 0 {
        return Err(IqrError::NoSizes);
    }
    let mut k: usize = 0;
    while k < n_range.len()
        invariant
            k <= n_range@.len(),
            forall|m: int| 0 <= m < k ==> n_range@[m] != 0,
            operator.wf(),
        decreases n_range@.len() - k,
    {
        if n_range[k] == 0 {
            assert(n_range@.contains(0) && n_range@[k as int] == 0);
            return Err(IqrError::ZeroSize);
        }
        k = k + 1;
    }
    if max_iter == 0 {
        return Err(IqrError::ZeroIterations);
    }
    if !T::zero().real_below(&tol) {
        return Err(IqrError::NonPositiveTolerance);
    }
    let mut results: HashMap<usize, IqrResult<T>> = HashMap::new();
    let mut k: usize = 0;
    while k < n_range.len()
        invariant
            k <= n_range@.len(),
            operator.wf(),
            operator.source() == old(operator).source(),
            old(operator).cached() <= operator.cached(),
            !n_range@.contains(0),
            max_iter > 0,
            T::spec_zero().below(tol),
            forall|m: int| 0 <= m < n_range@.len() ==> #[trigger] n_range@[m] * n_range@[m] <= usize::MAX,
            forall|x: usize| #[trigger]
                results@.contains_key(x) <==> n_range@.take(k as int).contains(x),
            forall|x: usize| #[trigger]
                results@.contains_key(x) ==> run_outcome(results@[x], x as nat, max_iter as nat, tol, false),
        decreases n_range@.len() - k,
    {
        let n = n_range[k];
        assert(n_range@.contains(n) && n_range@[k as int] == n);
        let ghost before = operator.cached();
        match iqr_algorithm(operator, n, max_iter, tol, None, false) {
            Ok(res) => {
                results.insert(n, res);
            },
            Err(e) => {
                return Err(e);
            },
        }
        proof {
            assert forall|p: (usize, usize)| #[trigger] old(operator).cached().contains_key(p)
                implies operator.cached().contains_key(p) && operator.cached()[p] == old(
                operator,
            ).cached()[p] by {
                assert(before.contains_key(p));
            }
            assert(old(operator).cached() <= operator.cached());
            assert forall|x: usize| #[trigger]
                results@.contains_key(x) <==> n_range@.take(k + 1).contains(x) by {
                if n_range@.take(k + 1).contains(x) {
                    let m = choose|m: int| 0 <= m < k + 1 && #[trigger] n_range@.take(k + 1)[m] == x;
                    if m < k {
                        assert(n_range@.take(k as int)[m] == x);
                    }
                }
                if n_range@.take(k as int).contains(x) {
                    let m = choose|m: int| 0 <= m < k && #[trigger] n_range@.take(k as int)[m] == x;
                    assert(n_range@.take(k + 1)[m] == x);
                }
                assert(n_range@.take(k + 1)[k as int] == n);
            }
        }
        k = k + 1;
    }
    assert(n_range@.take(n_range@.len() as int) =~= n_range@);
    let mut converged = true;
    let mut k: usize = 0;
    while k < n_range.len()
        invariant
            k <= n_range@.len(),
            forall|x: usize| #[trigger] results@.contains_key(x) <==> n_range@.contains(x),
            converged == forall|m: int|
                0 <= m < k ==> #[trigger] results@[n_range@[m]].converged,
        decreases n_range@.len() - k,
    {
        assert(n_range@.contains(n_range@[k as int]));
        match results.get(&n_range[k]) {
            Some(res) => {
                converged = converged && res.converged;
            },
            None => {},
        }
        k = k + 1;
    }
    let recommended_n = largest_size(n_range);
    let eigenvalues = match results.get(&recommended_n) {
        Some(res) => copy_values(&res.eigenvalues),
        None => Vec::new(),
    };
    Ok(IqrSpectrumResult { eigenvalues, eigenvalues_by_n: results, converged, recommended_n })
}

} // verus!
