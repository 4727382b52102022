//! The infinity marker used for array dimensions.
use vstd::prelude::*;

verus! {

/// Marks a dimension of unbounded size.
#[derive(Clone, Copy, PartialEq, Eq, Structural, PartialOrd, Ord, Hash, Debug)]
pub struct Infinity;

/// The infinity marker as a constant.
pub const INFINITY: Infinity = Infinity;

/// Returns the infinity marker.
pub fn get_infinity() -> (r: Infinity)
    ensures
        r == INFINITY,
{
    Infinity
}

/// An unbounded dimension read as a machine size is the largest `usize`.
impl From<Infinity> for usize {
    fn from(_v: Infinity) -> (r: usize) {
        usize::MAX
    }
}

impl vstd::std_specs::convert::FromSpecImpl<Infinity> for usize {
    open spec fn obeys_from_spec() -> bool {
        true
    }

    open spec fn from_spec(v: Infinity) -> usize {
        usize::MAX
    }
}

} // verus!
