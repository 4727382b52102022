//! Unbounded diagonal matrices whose diagonal is read once per position.
use vstd::prelude::*;
use std::collections::HashMap;
use crate::arrays::{Shape, ELEMENT_TYPE};
use crate::infinity::Infinity;

verus! {

broadcast use vstd::std_specs::hash::group_hash_axioms;

/// The matrix with `values(k)` at `(k, k)` and `zero` elsewhere; each
/// diagonal value is computed once and kept.
pub struct InfiniteDiagonal<V, G> {
    values: G,
    zero: V,
    value_cache: HashMap<usize, V>,
    shape: Shape,
}

impl<V: Copy, G: Fn(usize) -> V> InfiniteDiagonal<V, G> {
    pub closed spec fn values_spec(&self) -> G {
        self.values
    }

    pub closed spec fn zero_spec(&self) -> V {
        self.zero
    }

    /// The diagonal values kept so far.
    pub closed spec fn kept(&self) -> Map<usize, V> {
        self.value_cache@
    }

    /// The diagonal function may be called everywhere, and every kept value
    /// is one it may give.
    pub open spec fn wf(&self) -> bool {
        &&& forall|k: usize| #[trigger] self.values_spec().requires((k,))
        &&& forall|k: usize| #[trigger]
            self.kept().contains_key(k) ==> self.values_spec().ensures((k,), self.kept()[k])
    }

    pub fn new(values: G, zero: V) -> (r: InfiniteDiagonal<V, G>)
        requires
            forall|k: usize| #[trigger] values.requires((k,)),
        ensures
            r.wf(),
            r.values_spec() == values,
            r.zero_spec() == zero,
            r.kept() == Map::<usize, V>::empty(),
    {
        InfiniteDiagonal {
            values,
            zero,
            value_cache: HashMap::new(),
            shape: Shape::MultiD(vec![Some(Infinity), Some(Infinity)]),
        }
    }

    fn get_value(&mut self, k: usize) -> (r: V)
        requires
            old(self).wf(),
        ensures
            final(self).wf(),
            final(self).values_spec() == old(self).values_spec(),
            final(self).zero_spec() == old(self).zero_spec(),
            old(self).values_spec().ensures((k,), r),
            old(self).kept().contains_key(k) ==> r == old(self).kept()[k] && final(self).kept()
                == old(self).kept(),
            !old(self).kept().contains_key(k) ==> final(self).kept() == old(self).kept().insert(k, r),
    {
        match self.value_cache.get(&k) {
            Some(v) => {
                assert(self.kept().contains_key(k));
                *v
            },
            None => {
                assert(self.values_spec().requires((k,)));
                let v = (self.values)(k);
                let ghost before = self.kept();
                self.value_cache.insert(k, v);
                assert forall|m: usize| #[trigger] self.kept().contains_key(m) implies self.values_spec().ensures(
                    (m,),
                    self.kept()[m],
                ) by {
                    if m != k {
                        assert(before.contains_key(m));
                    }
                }
                v
            },
        }
    }

    /// The entry at `(row, col)`.
    pub fn get(&mut self, row: usize, col: usize) -> (r: V)
        requires
            old(self).wf(),
        ensures
            final(self).wf(),
            final(self).values_spec() == old(self).values_spec(),
            final(self).zero_spec() == old(self).zero_spec(),
            row != col ==> r == old(self).zero_spec() && final(self).kept() == old(self).kept(),
            row == col ==> old(self).values_spec().ensures((row,), r),
            row == col && old(self).kept().contains_key(row) ==> r == old(self).kept()[row],
            old(self).kept() <= final(self).kept(),
    {
        if row == col {
            self.get_value(row)
        } else {
            self.zero
        }
    }

    pub fn shape(&self) -> (r: Shape)
        ensures
            r.same_as(&self.shape_spec()),
    {
        self.shape.duplicate()
    }

    pub closed spec fn shape_spec(&self) -> Shape {
        self.shape
    }

    pub fn dtype(&self) -> (r: &'static str)
        ensures
            r == ELEMENT_TYPE,
    {
        ELEMENT_TYPE
    }
}

} // verus!
