//! Shapes of lazily valued arrays, and the arrays of all ones and all zeros.
use vstd::prelude::*;
use crate::infinity::Infinity;

verus! {

/// The shape of an array: each dimension is `Some(Infinity)` when unbounded
/// and `None` when finite.
#[derive(Debug)]
pub enum Shape {
    Scalar,
    OneD(Option<Infinity>),
    MultiD(Vec<Option<Infinity>>),
}

/// The name of the element type of the arrays here.
pub const ELEMENT_TYPE: &'static str = "f64";

impl Shape {
    /// Whether two shapes have the same dimensions.
    pub open spec fn same_as(&self, o: &Shape) -> bool {
        match (self, o) {
            (Shape::Scalar, Shape::Scalar) => true,
            (Shape::OneD(a), Shape::OneD(b)) => a == b,
            (Shape::MultiD(a), Shape::MultiD(b)) => a@ == b@,
            _ => false,
        }
    }

    /// The shape of a one-dimensional unbounded array.
    pub open spec fn unbounded_line() -> Shape {
        Shape::OneD(Some(Infinity))
    }

    /// A copy with the same dimensions.
    pub fn duplicate(&self) -> (r: Shape)
        ensures
            r.same_as(self),
    {
        match self {
            Shape::Scalar => Shape::Scalar,
            Shape::OneD(d) => Shape::OneD(*d),
            Shape::MultiD(dims) => {
                let mut out: Vec<Option<Infinity>> = Vec::new();
                let mut k: usize = 0;
                while k < dims.len()
                    invariant
                        k <= dims@.len(),
                        out@ == dims@.take(k as int),
                    decreases dims@.len() - k,
                {
                    out.push(dims[k]);
                    k = k + 1;
                    assert(out@ =~= dims@.take(k as int));
                }
                assert(dims@.take(dims@.len() as int) =~= dims@);
                Shape::MultiD(out)
            },
        }
    }
}

/// The unbounded array whose every element is one.
pub struct Ones {
    shape: Shape,
}

impl Ones {
    pub closed spec fn shape_spec(&self) -> Shape {
        self.shape
    }

    /// The given shape, or a one-dimensional unbounded one.
    pub fn new(shape: Option<Shape>) -> (r: Ones)
        ensures
            shape matches Some(s) ==> r.shape_spec() == s,
            shape is None ==> r.shape_spec() == Shape::unbounded_line(),
    {
        let shape = match shape {
            Some(s) => s,
            None => Shape::OneD(Some(Infinity)),
        };
        Ones { shape }
    }

    pub fn shape(&self) -> (r: Shape)
        ensures
            r.same_as(&self.shape_spec()),
    {
        self.shape.duplicate()
    }

    pub fn dtype(&self) -> (r: &'static str)
        ensures
            r == ELEMENT_TYPE,
    {
        ELEMENT_TYPE
    }
}

/// The unbounded array whose every element is zero.
pub struct Zeros {
    shape: Shape,
}

impl Zeros {
    pub closed spec fn shape_spec(&self) -> Shape {
        self.shape
    }

    /// The given shape, or a one-dimensional unbounded one.
    pub fn new(shape: Option<Shape>) -> (r: Zeros)
        ensures
            shape matches Some(s) ==> r.shape_spec() == s,
            shape is None ==> r.shape_spec() == Shape::unbounded_line(),
    {
        let shape = match shape {
            Some(s) => s,
            None => Shape::OneD(Some(Infinity)),
        };
        Zeros { shape }
    }

    pub fn shape(&self) -> (r: Shape)
        ensures
            r.same_as(&self.shape_spec()),
    {
        self.shape.duplicate()
    }

    pub fn dtype(&self) -> (r: &'static str)
        ensures
            r == ELEMENT_TYPE,
    {
        ELEMENT_TYPE
    }
}

/// The unbounded array whose every element is one given value.
pub struct Fill<V> {
    value: V,
    shape: Shape,
}

impl<V: Copy> Fill<V> {
    pub closed spec fn value_spec(&self) -> V {
        self.value
    }

    pub closed spec fn shape_spec(&self) -> Shape {
        self.shape
    }

    /// Every element is `value`; the shape is the given one, or a
    /// one-dimensional unbounded one.
    pub fn new(value: V, shape: Option<Shape>) -> (r: Fill<V>)
        ensures
            r.value_spec() == value,
            shape matches Some(s) ==> r.shape_spec() == s,
            shape is None ==> r.shape_spec() == Shape::unbounded_line(),
    {
        let shape = match shape {
            Some(s) => s,
            None => Shape::OneD(Some(Infinity)),
        };
        Fill { value, shape }
    }

    /// The element at `index`.
    pub fn get(&self, index: usize) -> (r: V)
        ensures
            r == self.value_spec(),
    {
        self.value
    }

    pub fn shape(&self) -> (r: Shape)
        ensures
            r.same_as(&self.shape_spec()),
    {
        self.shape.duplicate()
    }

    pub fn dtype(&self) -> (r: &'static str)
        ensures
            r == ELEMENT_TYPE,
    {
        ELEMENT_TYPE
    }
}

} // verus!
