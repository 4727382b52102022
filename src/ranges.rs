//! Unbounded arithmetic progressions of indices.
use vstd::prelude::*;
use vstd::arithmetic::div_mod::lemma_fundamental_div_mod;

verus! {

/// The progression 1, 2, 3, ...
#[derive(Debug, Clone, Copy, PartialEq, Eq, Structural)]
pub struct OneToInf;

impl OneToInf {
    /// The `k`-th element (counting from 0) of the progression.
    pub open spec fn nth(&self, k: int) -> int {
        k + 1
    }

    pub fn new() -> (r: OneToInf)
        ensures
            r == OneToInf,
    {
        OneToInf
    }

    pub fn start(&self) -> (r: usize)
        ensures
            r == self.nth(0),
    {
        1
    }

    pub fn contains(&self, item: usize) -> (r: bool)
        ensures
            r == (item >= 1),
    {
        item >= 1
    }

    /// The position of `value` in the progression.
    pub fn index(&self, value: usize) -> (r: usize)
        requires
            value >= 1,
        ensures
            self.nth(r as int) == value,
    {
        value - 1
    }

    /// The first `count` elements.
    pub fn iter(&self, count: usize) -> (r: Vec<usize>)
        requires
            count < usize::MAX,
        ensures
            r@.len() == count,
            forall|k: int| 0 <= k < count ==> r@[k] == self.nth(k),
    {
        let mut out: Vec<usize> = Vec::new();
        let mut k: usize = 0;
        while k < count
            invariant
                k <= count < usize::MAX,
                out@.len() == k,
                forall|m: int| 0 <= m < k ==> out@[m] == self.nth(m),
            decreases count - k,
        {
            out.push(k + 1);
            k = k + 1;
        }
        out
    }

    pub fn get(&self, key: usize) -> (r: usize)
        requires
            key < usize::MAX,
        ensures
            r == self.nth(key as int),
    {
        key + 1
    }
}

impl Default for OneToInf {
    fn default() -> (r: OneToInf)
        ensures
            r == OneToInf,
    {
        OneToInf::new()
    }
}

/// The progression start, start + step, start + 2 * step, ...
#[derive(Debug, Clone, Copy, PartialEq, Eq, Structural)]
pub struct InfUnitRange {
    start: usize,
    step: usize,
}

impl InfUnitRange {
    pub closed spec fn start_spec(&self) -> int {
        self.start as int
    }

    pub closed spec fn step_spec(&self) -> int {
        self.step as int
    }

    /// The `k`-th element (counting from 0) of the progression.
    pub open spec fn nth(&self, k: int) -> int {
        self.start_spec() + k * self.step_spec()
    }

    /// Whether `item` is an element, for a positive step.
    pub open spec fn has(&self, item: int) -> bool {
        item >= self.start_spec() && (item - self.start_spec()) % self.step_spec() == 0
    }

    pub fn new(start: usize, step: usize) -> (r: InfUnitRange)
        ensures
            r.start_spec() == start,
            r.step_spec() == step,
    {
        InfUnitRange { start, step }
    }

    pub fn start(&self) -> (r: usize)
        ensures
            r == self.start_spec(),
    {
        self.start
    }

    pub fn step(&self) -> (r: usize)
        ensures
            r == self.step_spec(),
    {
        self.step
    }

    /// With a zero step only items below the start can be asked about.
    pub fn contains(&self, item: usize) -> (r: bool)
        requires
            self.step_spec() > 0 || item < self.start_spec(),
        ensures
            r == (item >= self.start_spec() && self.has(item as int)),
    {
        if self.step == 1 {
            assert((item - self.start) % 1 == 0);
            item >= self.start
        } else {
            (item >= self.start) && ((item - self.start) % self.step == 0)
        }
    }

    /// The position of `value` in the progression.
    pub fn index(&self, value: usize) -> (r: usize)
        requires
            self.step_spec() > 0,
            self.has(value as int),
        ensures
            self.nth(r as int) == value,
    {
        let d = value - self.start;
        let r = d / self.step;
        proof {
            lemma_fundamental_div_mod(d as int, self.step as int);
            assert(r * self.step == self.step * r) by (nonlinear_arith);
        }
        r
    }

    /// The first `count` elements.
    pub fn iter(&self, count: usize) -> (r: Vec<usize>)
        requires
            count > 0 ==> self.nth(count - 1) <= usize::MAX,
        ensures
            r@.len() == count,
            forall|k: int| 0 <= k < count ==> r@[k] == self.nth(k),
    {
        let mut out: Vec<usize> = Vec::new();
        let mut k: usize = 0;
        while k < count
            invariant
                k <= count,
                count > 0 ==> self.nth(count - 1) <= usize::MAX,
                out@.len() == k,
                forall|m: int| 0 <= m < k ==> out@[m] == self.nth(m),
            decreases count - k,
        {
            proof {
                let s = self.step as int;
                assert(k * s <= (count - 1) * s) by (nonlinear_arith)
                    requires k <= count - 1, s >= 0;
            }
            out.push(self.start + k * self.step);
            k = k + 1;
        }
        out
    }

    pub fn get(&self, key: usize) -> (r: usize)
        requires
            self.nth(key as int) <= usize::MAX,
        ensures
            r == self.nth(key as int),
    {
        proof {
            let s = self.step as int;
            assert(0 <= key * s) by (nonlinear_arith)
                requires key >= 0, s >= 0;
        }
        self.start + key * self.step
    }
}

/// The progression start, start + step, start + 2 * step, ... with a step
/// kept apart from the unit-step case.
#[derive(Debug, Clone, Copy, PartialEq, Eq, Structural)]
pub struct InfStepRange {
    start: usize,
    step: usize,
}

impl InfStepRange {
    pub closed spec fn start_spec(&self) -> int {
        self.start as int
    }

    pub closed spec fn step_spec(&self) -> int {
        self.step as int
    }

    /// The `k`-th element (counting from 0) of the progression.
    pub open spec fn nth(&self, k: int) -> int {
        self.start_spec() + k * self.step_spec()
    }

    /// Whether `item` is an element, for a positive step.
    pub open spec fn has(&self, item: int) -> bool {
        item >= self.start_spec() && (item - self.start_spec()) % self.step_spec() == 0
    }

    pub fn new(start: usize, step: usize) -> (r: InfStepRange)
        ensures
            r.start_spec() == start,
            r.step_spec() == step,
    {
        InfStepRange { start, step }
    }

    pub fn start(&self) -> (r: usize)
        ensures
            r == self.start_spec(),
    {
        self.start
    }

    pub fn step(&self) -> (r: usize)
        ensures
            r == self.step_spec(),
    {
        self.step
    }

    pub fn contains(&self, item: usize) -> (r: bool)
        requires
            self.step_spec() > 0,
        ensures
            r == self.has(item as int),
    {
        item >= self.start && (item - self.start) % self.step == 0
    }

    /// The position of `value` in the progression.
    pub fn index(&self, value: usize) -> (r: usize)
        requires
            self.step_spec() > 0,
            self.has(value as int),
        ensures
            self.nth(r as int) == value,
    {
        let d = value - self.start;
        let r = d / self.step;
        proof {
            lemma_fundamental_div_mod(d as int, self.step as int);
            assert(r * self.step == self.step * r) by (nonlinear_arith);
        }
        r
    }

    /// The first `count` elements.
    pub fn iter(&self, count: usize) -> (r: Vec<usize>)
        requires
            count > 0 ==> self.nth(count - 1) <= usize::MAX,
        ensures
            r@.len() == count,
            forall|k: int| 0 <= k < count ==> r@[k] == self.nth(k),
    {
        let mut out: Vec<usize> = Vec::new();
        let mut k: usize = 0;
        while k < count
            invariant
                k <= count,
                count > 0 ==> self.nth(count - 1) <= usize::MAX,
                out@.len() == k,
                forall|m: int| 0 <= m < k ==> out@[m] == self.nth(m),
            decreases count - k,
        {
            proof {
                let s = self.step as int;
                assert(k * s <= (count - 1) * s) by (nonlinear_arith)
                    requires k <= count - 1, s >= 0;
            }
            out.push(self.start + k * self.step);
            k = k + 1;
        }
        out
    }

    pub fn get(&self, key: usize) -> (r: usize)
        requires
            self.nth(key as int) <= usize::MAX,
        ensures
            r == self.nth(key as int),
    {
        proof {
            let s = self.step as int;
            assert(0 <= key * s) by (nonlinear_arith)
                requires key >= 0, s >= 0;
        }
        self.start + key * self.step
    }
}

} // verus!
