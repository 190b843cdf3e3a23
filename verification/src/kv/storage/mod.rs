pub mod memory;
pub mod mutation;

use std::ops::Bound;
use vstd::prelude::*;

verus! {

/// A range of keys, given by its two bounds.
#[derive(Debug)]
pub struct ByteArrayRangeBound(pub Bound<Vec<u8>>, pub Bound<Vec<u8>>);

/// A bound on a borrowed key as a bound on the bytes of the key.
pub open spec fn borrowed_bound_view(bound: Bound<&[u8]>) -> Bound<Seq<u8>> {
    match bound {
        Bound::Included(key) => Bound::Included(key@),
        Bound::Excluded(key) => Bound::Excluded(key@),
        Bound::Unbounded => Bound::Unbounded,
    }
}

/// A bound on an owned key as a bound on the bytes of the key.
pub open spec fn owned_bound_view(bound: Bound<Vec<u8>>) -> Bound<Seq<u8>> {
    match bound {
        Bound::Included(key) => Bound::Included(key@),
        Bound::Excluded(key) => Bound::Excluded(key@),
        Bound::Unbounded => Bound::Unbounded,
    }
}

impl ByteArrayRangeBound {
    /// The lower bound, with its key lent out.
    pub fn start_bound(&self) -> (bound: Bound<&[u8]>)
        ensures
            borrowed_bound_view(bound) == owned_bound_view(self.0),
    {
        match &self.0 {
            Bound::Included(v) => Bound::Included(v.as_slice()),
            Bound::Excluded(v) => Bound::Excluded(v.as_slice()),
            Bound::Unbounded => Bound::Unbounded,
        }
    }

    /// The upper bound, with its key lent out.
    pub fn end_bound(&self) -> (bound: Bound<&[u8]>)
        ensures
            borrowed_bound_view(bound) == owned_bound_view(self.1),
    {
        match &self.1 {
            Bound::Included(v) => Bound::Included(v.as_slice()),
            Bound::Excluded(v) => Bound::Excluded(v.as_slice()),
            Bound::Unbounded => Bound::Unbounded,
        }
    }
}

} // verus!
