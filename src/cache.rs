//! Arrays that keep every element once read, and accept writes.
use vstd::prelude::*;
use std::collections::HashMap;
use crate::arrays::{Shape, ELEMENT_TYPE};

verus! {

broadcast use vstd::std_specs::hash::group_hash_axioms;

/// An array read through `base`, keeping each element read or written.
pub struct CachedArray<V, F> {
    base: F,
    cache: HashMap<usize, V>,
    shape: Shape,
}

impl<V: Copy, F: Fn(usize) -> V> CachedArray<V, F> {
    pub closed spec fn base_spec(&self) -> F {
        self.base
    }

    pub closed spec fn shape_spec(&self) -> Shape {
        self.shape
    }

    /// The elements kept so far.
    pub closed spec fn entries(&self) -> Map<usize, V> {
        self.cache@
    }

    /// The base may be read at every index.
    pub open spec fn wf(&self) -> bool {
        forall|k: usize| #[trigger] self.base_spec().requires((k,))
    }

    pub fn new(base: F, shape: Shape) -> (r: CachedArray<V, F>)
        requires
            forall|k: usize| #[trigger] base.requires((k,)),
        ensures
            r.wf(),
            r.base_spec() == base,
            r.shape_spec() == shape,
            r.entries() == Map::<usize, V>::empty(),
    {
        CachedArray { base, cache: HashMap::new(), shape }
    }

    /// Keeps `value` as the element at `index`.
    pub fn set(&mut self, index: usize, value: V)
        ensures
            final(self).entries() == old(self).entries().insert(index, value),
            final(self).base_spec() == old(self).base_spec(),
            final(self).shape_spec() == old(self).shape_spec(),
    {
        self.cache.insert(index, value);
    }

    /// The kept element at `index`, or else the base's, which is then kept.
    pub fn get(&mut self, index: usize) -> (r: V)
        requires
            old(self).wf(),
        ensures
            final(self).base_spec() == old(self).base_spec(),
            final(self).shape_spec() == old(self).shape_spec(),
            old(self).entries().contains_key(index) ==> r == old(self).entries()[index]
                && final(self).entries() == old(self).entries(),
            !old(self).entries().contains_key(index) ==> old(self).base_spec().ensures((index,), r)
                && final(self).entries() == old(self).entries().insert(index, r),
    {
        match self.cache.get(&index) {
            Some(v) => *v,
            None => {
                assert(self.base_spec().requires((index,)));
                let v = (self.base)(index);
                self.cache.insert(index, v);
                v
            },
        }
    }

    pub fn shape(&self) -> (r: Shape)
        ensures
            r.same_as(&self.shape_spec()),
    {
        self.shape.duplicate()
    }

    pub fn dtype(&self) -> (r: &'static str)
        ensures
            r == ELEMENT_TYPE,
    {
        ELEMENT_TYPE
    }
}

/// A cached, writable array over `base`.
pub fn cache<V: Copy, F: Fn(usize) -> V>(base: F, shape: Shape) -> (r: CachedArray<V, F>)
    requires
        forall|k: usize| #[trigger] base.requires((k,)),
    ensures
        r.wf(),
        r.base_spec() == base,
        r.shape_spec() == shape,
        r.entries() == Map::<usize, V>::empty(),
{
    CachedArray::new(base, shape)
}

} // verus!
