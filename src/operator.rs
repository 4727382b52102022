//! Infinite operators sampled lazily at index pairs, with a memo of every
//! sampled entry, and the dense square matrices cut out of them.
use vstd::prelude::*;
use std::collections::HashMap;

verus! {

broadcast use vstd::std_specs::hash::group_hash_axioms;

/// A source of matrix entries: the strategy an operator samples from.
pub trait Sampler<V>: Sized {
    /// Whether `sample` may be called at every index pair.
    spec fn ready(&self) -> bool;

    /// Whether `v` is a value that `sample` may give at `(row, col)`.
    spec fn yields(&self, row: usize, col: usize, v: V) -> bool;

    fn sample(&self, row: usize, col: usize) -> (r: V)
        requires
            self.ready(),
        ensures
            self.yields(row, col, r),
    ;
}

/// Entries given by a function of the index pair.
pub struct FnSampler<F> {
    pub func: F,
}

impl<V, F: Fn(usize, usize) -> V> Sampler<V> for FnSampler<F> {
    open spec fn ready(&self) -> bool {
        forall|row: usize, col: usize| #[trigger] self.func.requires((row, col))
    }

    open spec fn yields(&self, row: usize, col: usize, v: V) -> bool {
        self.func.ensures((row, col), v)
    }

    fn sample(&self, row: usize, col: usize) -> (r: V) {
        (self.func)(row, col)
    }
}

/// Entries of a diagonal operator: `values(k)` at `(k, k)`, `zero` elsewhere.
pub struct DiagonalSampler<V, G> {
    pub values: G,
    pub zero: V,
}

impl<V: Copy, G: Fn(usize) -> V> Sampler<V> for DiagonalSampler<V, G> {
    open spec fn ready(&self) -> bool {
        forall|k: usize| #[trigger] self.values.requires((k,))
    }

    open spec fn yields(&self, row: usize, col: usize, v: V) -> bool {
        if row == col {
            self.values.ensures((row,), v)
        } else {
            v == self.zero
        }
    }

    fn sample(&self, row: usize, col: usize) -> (r: V) {
        if row == col {
            (self.values)(row)
        } else {
            self.zero
        }
    }
}

/// Entries of a tridiagonal operator: `main(k)` at `(k, k)`, `upper(k)` at
/// `(k, k + 1)`, `lower(k)` at `(k + 1, k)`, `zero` elsewhere; a missing band
/// is all `zero`.
pub struct TridiagonalSampler<V, G1, G2, G3> {
    pub main: G1,
    pub upper: Option<G2>,
    pub lower: Option<G3>,
    pub zero: V,
}

/// What a band given as an optional function yields at position `k`.
pub open spec fn band_yields<V, G: Fn(usize) -> V>(band: Option<G>, zero: V, k: usize, v: V) -> bool {
    match band {
        Some(g) => g.ensures((k,), v),
        None => v == zero,
    }
}

/// Whether a band given as an optional function may be called everywhere.
pub open spec fn band_ready<V, G: Fn(usize) -> V>(band: Option<G>) -> bool {
    match band {
        Some(g) => forall|k: usize| #[trigger] g.requires((k,)),
        None => true,
    }
}

impl<V: Copy, G1: Fn(usize) -> V, G2: Fn(usize) -> V, G3: Fn(usize) -> V> Sampler<V> for TridiagonalSampler<
    V,
    G1,
    G2,
    G3,
> {
    open spec fn ready(&self) -> bool {
        &&& forall|k: usize| #[trigger] self.main.requires((k,))
        &&& band_ready(self.upper)
        &&& band_ready(self.lower)
    }

    open spec fn yields(&self, row: usize, col: usize, v: V) -> bool {
        if row == col {
            self.main.ensures((row,), v)
        } else if col == row + 1 {
            band_yields(self.upper, self.zero, row, v)
        } else if row == col + 1 {
            band_yields(self.lower, self.zero, col, v)
        } else {
            v == self.zero
        }
    }

    fn sample(&self, row: usize, col: usize) -> (r: V) {
        if row == col {
            (self.main)(row)
        } else if row < col && col - row == 1 {
            match &self.upper {
                Some(g) => g(row),
                None => self.zero,
            }
        } else if col < row && row - col == 1 {
            match &self.lower {
                Some(g) => g(col),
                None => self.zero,
            }
        } else {
            self.zero
        }
    }
}

/// The number of distinct column indices: the base of the pair encoding.
pub const KEY_BASE: u128 = 18446744073709551616;

/// The memo key of an index pair.
pub open spec fn pair_key(row: usize, col: usize) -> int {
    row as int * KEY_BASE as int + col as int
}

proof fn lemma_pair_key_injective(a: usize, b: usize, c: usize, d: usize)
    requires
        pair_key(a, b) == pair_key(c, d),
    ensures
        a == c,
        b == d,
{
    let k = KEY_BASE as int;
    assert(a as int == c as int) by (nonlinear_arith)
        requires
            a as int * k + b as int == c as int * k + d as int,
            0 <= b < k,
            0 <= d < k,
            0 <= a,
            0 <= c,
    {
        if a < c {
            assert(a as int * k + k <= c as int * k);
        } else if c < a {
            assert(c as int * k + k <= a as int * k);
        }
    }
}

fn key_of(row: usize, col: usize) -> (r: u128)
    ensures
        r as int == pair_key(row, col),
{
    assert(row as int * KEY_BASE as int + col as int <= u128::MAX) by (nonlinear_arith)
        requires
            row < KEY_BASE,
            col < KEY_BASE,
            KEY_BASE as int * KEY_BASE as int == u128::MAX as int + 1,
    {
        assert(row as int * KEY_BASE as int <= (KEY_BASE as int - 1) * KEY_BASE as int);
    }
    (row as u128) * KEY_BASE + (col as u128)
}

/// An infinite matrix read through a sampler; every entry read is kept, so
/// later reads of it give the same value.
pub struct InfiniteOperator<V, S> {
    sampler: S,
    cache: HashMap<u128, V>,
}

impl<V: Copy, S: Sampler<V>> InfiniteOperator<V, S> {
    /// The sampler the entries come from.
    pub closed spec fn source(&self) -> S {
        self.sampler
    }

    /// The entries read so far.
    pub closed spec fn cached(&self) -> Map<(usize, usize), V> {
        Map::new(
            |p: (usize, usize)| self.cache@.contains_key(pair_key(p.0, p.1) as u128),
            |p: (usize, usize)| self.cache@[pair_key(p.0, p.1) as u128],
        )
    }

    /// The sampler may be called, and every kept entry is one it may give.
    pub open spec fn wf(&self) -> bool {
        &&& self.source().ready()
        &&& forall|row: usize, col: usize| #[trigger]
            self.cached().contains_key((row, col)) ==> self.source().yields(
                row,
                col,
                self.cached()[(row, col)],
            )
    }

    /// What one read of `(row, col)` does: a kept entry is handed back and
    /// nothing changes; otherwise a sampled value is kept and handed back.
    pub open spec fn read_step(&self, after: Self, row: usize, col: usize, r: V) -> bool {
        &&& after.wf()
        &&& after.source() == self.source()
        &&& self.source().yields(row, col, r)
        &&& if self.cached().contains_key((row, col)) {
            r == self.cached()[(row, col)] && after.cached() == self.cached()
        } else {
            after.cached() == self.cached().insert((row, col), r)
        }
    }

    /// An operator over `sampler` with nothing read yet.
    pub fn from_sampler(sampler: S) -> (r: Self)
        requires
            sampler.ready(),
        ensures
            r.wf(),
            r.source() == sampler,
            r.cached() == Map::<(usize, usize), V>::empty(),
    {
        let r = InfiniteOperator { sampler, cache: HashMap::new() };
        assert(r.cached() =~= Map::<(usize, usize), V>::empty());
        r
    }

    /// The entry at `(row, col)`.
    pub fn get(&mut self, row: usize, col: usize) -> (r: V)
        requires
            old(self).wf(),
        ensures
            old(self).read_step(*final(self), row, col, r),
    {
        let key = key_of(row, col);
        match self.cache.get(&key) {
            Some(v) => {
                let v = *v;
                assert(self.cached().contains_key((row, col)));
                v
            },
            None => {
                let v = self.sampler.sample(row, col);
                let ghost before = self.cached();
                self.cache.insert(key, v);
                proof {
                    assert forall|p: (usize, usize)|
                        #![trigger self.cached().contains_key(p)]
                        self.cached().contains_key(p) == before.insert((row, col), v).contains_key(p)
                            && (self.cached().contains_key(p) ==> self.cached()[p] == before.insert(
                            (row, col),
                            v,
                        )[p]) by {
                        if pair_key(p.0, p.1) == pair_key(row, col) {
                            lemma_pair_key_injective(p.0, p.1, row, col);
                        }
                        if p == (row, col) {
                            assert(pair_key(p.0, p.1) as u128 == key);
                        }
                    }
                    assert(self.cached() =~= before.insert((row, col), v));
                }
                v
            },
        }
    }

    /// The leading `n`-by-`n` block: entry `(i, j)` is the entry of the
    /// operator at `(i, j)`, read through the memo.
    pub fn get_truncation(&mut self, n: usize) -> (m: SquareMatrix<V>)
        requires
            old(self).wf(),
            n * n <= usize::MAX,
        ensures
            final(self).wf(),
            final(self).source() == old(self).source(),
            old(self).cached() <= final(self).cached(),
            m.wf(),
            m.size() == n,
            m.is_truncation_of(final(self).cached()),
    {
        let mut data: Vec<V> = Vec::new();
        let mut i: usize = 0;
        let ghost start = self.cached();
        while i < n
            invariant
                i <= n,
                n * n <= usize::MAX,
                self.wf(),
                self.source() == old(self).source(),
                start == old(self).cached(),
                start <= self.cached(),
                data@.len() == i * n,
                forall|a: int, b: int|
                    0 <= a < i && 0 <= b < n ==> #[trigger] self.cached().contains_key(
                        (a as usize, b as usize),
                    ) && data@[a * n + b] == self.cached()[(a as usize, b as usize)],
            decreases n - i,
        {
            let mut j: usize = 0;
            while j < n
                invariant
                    i < n,
                    j <= n,
                    n * n <= usize::MAX,
                    self.wf(),
                    self.source() == old(self).source(),
                    start <= self.cached(),
                    data@.len() == i * n + j,
                    forall|a: int, b: int|
                        (0 <= a < i && 0 <= b < n) || (a == i && 0 <= b < j) ==> #[trigger]
                        self.cached().contains_key((a as usize, b as usize)) && data@[a * n + b]
                            == self.cached()[(a as usize, b as usize)],
                decreases n - j,
            {
                proof {
                    assert(i * n + j < n * n) by (nonlinear_arith)
                        requires i < n, j < n;
                }
                let ghost prev = self.cached();
                let ghost prev_data = data@;
                let v = self.get(i, j);
                data.push(v);
                proof {
                    assert(prev <= self.cached());
                    assert forall|a: int, b: int|
                        (0 <= a < i && 0 <= b < n) || (a == i && 0 <= b < j + 1) implies #[trigger]
                        self.cached().contains_key((a as usize, b as usize)) && data@[a * n + b]
                            == self.cached()[(a as usize, b as usize)] by {
                        assert(0 <= a * n + b < i * n + j + 1) by (nonlinear_arith)
                            requires (0 <= a < i && 0 <= b < n) || (a == i && 0 <= b < j + 1);
                        if a == i && b == j {
                            assert(data@[a * n + b] == v);
                        } else {
                            assert(a * n + b < i * n + j) by (nonlinear_arith)
                                requires (0 <= a < i && 0 <= b < n) || (a == i && 0 <= b < j);
                            assert(prev.contains_key((a as usize, b as usize)));
                            assert(data@[a * n + b] == prev_data[a * n + b]);
                        }
                    }
                }
                j = j + 1;
            }
            proof {
                assert((i + 1) * n == i * n + n) by (nonlinear_arith);
            }
            i = i + 1;
        }
        let m = SquareMatrix { n, data };
        proof {
            assert forall|a: int, b: int| 0 <= a < n && 0 <= b < n implies
                #[trigger] self.cached().contains_key((a as usize, b as usize))
                && m.entry(a, b) == self.cached()[(a as usize, b as usize)] by {}
        }
        m
    }
}

impl<V: Copy, F: Fn(usize, usize) -> V> InfiniteOperator<V, FnSampler<F>> {
    /// An operator whose entry at `(row, col)` is `matrix_func(row, col)`.
    pub fn new(matrix_func: F) -> (r: Self)
        requires
            forall|row: usize, col: usize| #[trigger] matrix_func.requires((row, col)),
        ensures
            r.wf(),
            r.source().func == matrix_func,
            r.cached() == Map::<(usize, usize), V>::empty(),
    {
        Self::from_sampler(FnSampler { func: matrix_func })
    }
}

/// An operator that is `diagonal_values(k)` at `(k, k)` and `zero` elsewhere.
pub fn create_diagonal_operator<V: Copy, G: Fn(usize) -> V>(diagonal_values: G, zero: V) -> (r:
    InfiniteOperator<V, DiagonalSampler<V, G>>)
    requires
        forall|k: usize| #[trigger] diagonal_values.requires((k,)),
    ensures
        r.wf(),
        r.source().values == diagonal_values,
        r.source().zero == zero,
        r.cached() == Map::<(usize, usize), V>::empty(),
{
    InfiniteOperator::from_sampler(DiagonalSampler { values: diagonal_values, zero })
}

/// An operator that is `main_diag(k)` at `(k, k)`, `upper_diag(k)` at
/// `(k, k + 1)`, `lower_diag(k)` at `(k + 1, k)` and `zero` elsewhere; a band
/// left out is all `zero`.
pub fn create_tridiagonal_operator<V: Copy, G1: Fn(usize) -> V, G2: Fn(usize) -> V, G3: Fn(usize) -> V>(
    main_diag: G1,
    upper_diag: Option<G2>,
    lower_diag: Option<G3>,
    zero: V,
) -> (r: InfiniteOperator<V, TridiagonalSampler<V, G1, G2, G3>>)
    requires
        forall|k: usize| #[trigger] main_diag.requires((k,)),
        band_ready(upper_diag),
        band_ready(lower_diag),
    ensures
        r.wf(),
        r.source().main == main_diag,
        r.source().upper == upper_diag,
        r.source().lower == lower_diag,
        r.source().zero == zero,
        r.cached() == Map::<(usize, usize), V>::empty(),
{
    InfiniteOperator::from_sampler(
        TridiagonalSampler { main: main_diag, upper: upper_diag, lower: lower_diag, zero },
    )
}

/// A dense `n`-by-`n` matrix stored row by row.
pub struct SquareMatrix<V> {
    n: usize,
    data: Vec<V>,
}

impl<V: Copy> SquareMatrix<V> {
    pub closed spec fn size(&self) -> nat {
        self.n as nat
    }

    /// The entry in row `i` and column `j`.
    pub closed spec fn entry(&self, i: int, j: int) -> V {
        self.data@[i * self.n + j]
    }

    /// Every entry below the diagonal is `z`.
    pub open spec fn below_diagonal_is(&self, z: V) -> bool {
        forall|i: int, j: int| 0 <= j < i < self.size() ==> #[trigger] self.entry(i, j) == z
    }

    /// The diagonal, from the top left.
    pub open spec fn diagonal(&self) -> Seq<V> {
        Seq::new(self.size(), |k: int| self.entry(k, k))
    }

    pub closed spec fn wf(&self) -> bool {
        &&& self.n * self.n <= usize::MAX
        &&& self.data@.len() == self.n * self.n
    }

    /// Every entry is the kept entry of an operator at the same place.
    pub open spec fn is_truncation_of(&self, entries: Map<(usize, usize), V>) -> bool {
        forall|i: int, j: int|
            0 <= i < self.size() && 0 <= j < self.size() ==> #[trigger] entries.contains_key(
                (i as usize, j as usize),
            ) && self.entry(i, j) == entries[(i as usize, j as usize)]
    }

    /// An `n`-by-`n` matrix with every entry `v`.
    pub fn filled(n: usize, v: V) -> (r: Self)
        requires
            n * n <= usize::MAX,
        ensures
            r.wf(),
            r.size() == n,
            forall|i: int, j: int| 0 <= i < n && 0 <= j < n ==> #[trigger] r.entry(i, j) == v,
    {
        let mut data: Vec<V> = Vec::new();
        let total = n * n;
        let mut k: usize = 0;
        while k < total
            invariant
                k <= total,
                data@.len() == k,
                forall|m: int| 0 <= m < k ==> data@[m] == v,
            decreases total - k,
        {
            data.push(v);
            k = k + 1;
        }
        let r = SquareMatrix { n, data };
        proof {
            assert forall|i: int, j: int| 0 <= i < n && 0 <= j < n implies #[trigger] r.entry(i, j)
                == v by {
                assert(i * n + j < n * n) by (nonlinear_arith)
                    requires 0 <= i < n, 0 <= j < n;
                assert(0 <= i * n) by (nonlinear_arith)
                    requires 0 <= i, 0 <= n;
            }
        }
        r
    }

    pub fn size_of(&self) -> (r: usize)
        ensures
            r == self.size(),
            self.wf() ==> r * r <= usize::MAX,
    {
        self.n
    }

    /// The entry in row `i` and column `j`.
    pub fn at(&self, i: usize, j: usize) -> (r: V)
        requires
            self.wf(),
            i < self.size(),
            j < self.size(),
        ensures
            r == self.entry(i as int, j as int),
    {
        proof {
            lemma_index_in_bounds(i as int, j as int, self.n as int);
        }
        self.data[i * self.n + j]
    }

    /// Writes `v` in row `i` and column `j`, leaving every other entry.
    pub fn put(&mut self, i: usize, j: usize, v: V)
        requires
            old(self).wf(),
            i < old(self).size(),
            j < old(self).size(),
        ensures
            final(self).wf(),
            final(self).size() == old(self).size(),
            final(self).entry(i as int, j as int) == v,
            forall|a: int, b: int|
                0 <= a < old(self).size() && 0 <= b < old(self).size() && (a != i || b != j)
                    ==> #[trigger] final(self).entry(a, b) == old(self).entry(a, b),
    {
        proof {
            lemma_index_in_bounds(i as int, j as int, self.n as int);
        }
        let n = self.n;
        self.data.set(i * n + j, v);
        proof {
            assert forall|a: int, b: int|
                0 <= a < n && 0 <= b < n && (a != i || b != j) implies #[trigger] self.entry(a, b)
                == old(self).entry(a, b) by {
                lemma_index_distinct(a, b, i as int, j as int, n as int);
                lemma_index_in_bounds(a, b, n as int);
            }
        }
    }
}

proof fn lemma_index_in_bounds(i: int, j: int, n: int)
    requires
        0 <= i < n,
        0 <= j < n,
    ensures
        0 <= i * n + j < n * n,
{
    assert(0 <= i * n + j < n * n) by (nonlinear_arith)
        requires 0 <= i < n, 0 <= j < n;
}

proof fn lemma_index_distinct(a: int, b: int, i: int, j: int, n: int)
    requires
        0 <= a < n,
        0 <= b < n,
        0 <= i < n,
        0 <= j < n,
        a != i || b != j,
    ensures
        a * n + b != i * n + j,
{
    if a == i {
    } else {
        assert(a * n + b != i * n + j) by (nonlinear_arith)
            requires 0 <= b < n, 0 <= j < n, a != i;
    }
}

/// Reading the same index pair twice gives the same value: the first read
/// fixes it, and later reads, with any other reads in between, hand it back.
pub proof fn repeated_reads_agree<V: Copy, S: Sampler<V>>(
    s0: InfiniteOperator<V, S>,
    s1: InfiniteOperator<V, S>,
    s2: InfiniteOperator<V, S>,
    s3: InfiniteOperator<V, S>,
    row: usize,
    col: usize,
    first: V,
    second: V,
)
    requires
        s0.read_step(s1, row, col, first),
        s1.cached() <= s2.cached(),
        s2.read_step(s3, row, col, second),
    ensures
        first == second,
        s3.cached()[(row, col)] == first,
{
    assert(s1.cached().contains_key((row, col)));
    assert(s2.cached().contains_key((row, col)));
}

/// The leading block of a diagonal operator is diagonal: entry `(k, k)` is a
/// value of the diagonal function at `k`, and every other entry is exactly
/// the operator's zero.
pub proof fn diagonal_truncation_is_diagonal<V: Copy, G: Fn(usize) -> V>(
    op: InfiniteOperator<V, DiagonalSampler<V, G>>,
    m: SquareMatrix<V>,
)
    requires
        op.wf(),
        m.is_truncation_of(op.cached()),
    ensures
        forall|i: int, j: int|
            0 <= i < m.size() && 0 <= j < m.size() && i != j ==> #[trigger] m.entry(i, j)
                == op.source().zero,
        forall|k: int|
            0 <= k < m.size() ==> op.source().values.ensures((k as usize,), #[trigger] m.entry(k, k)),
{
    assert forall|i: int, j: int| 0 <= i < m.size() && 0 <= j < m.size() && i != j implies
        #[trigger] m.entry(i, j) == op.source().zero by {
        assert(op.cached().contains_key((i as usize, j as usize)));
    }
    assert forall|k: int| 0 <= k < m.size() implies op.source().values.ensures(
        (k as usize,),
        #[trigger] m.entry(k, k),
    ) by {
        assert(op.cached().contains_key((k as usize, k as usize)));
    }
}

} // verus!
