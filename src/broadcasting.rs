//! Arrays whose elements are computed from their index on each read.
use vstd::prelude::*;
use crate::arrays::{Shape, ELEMENT_TYPE};

verus! {

/// The array whose element at `index` is `func(index)`.
pub struct BroadcastArray<F> {
    func: F,
    shape: Shape,
}

impl<V, F: Fn(usize) -> V> BroadcastArray<F> {
    pub closed spec fn func_spec(&self) -> F {
        self.func
    }

    pub closed spec fn shape_spec(&self) -> Shape {
        self.shape
    }

    pub fn new(func: F, shape: Shape) -> (r: BroadcastArray<F>)
        ensures
            r.func_spec() == func,
            r.shape_spec() == shape,
    {
        BroadcastArray { func, shape }
    }

    /// The element at `index`.
    pub fn get(&self, index: usize) -> (r: V)
        requires
            self.func_spec().requires((index,)),
        ensures
            self.func_spec().ensures((index,), r),
    {
        (self.func)(index)
    }

    pub fn shape(&self) -> (r: Shape)
        ensures
            r.same_as(&self.shape_spec()),
    {
        self.shape.duplicate()
    }

    pub fn dtype(&self) -> (r: &'static str)
        ensures
            r == ELEMENT_TYPE,
    {
        ELEMENT_TYPE
    }
}

} // verus!
