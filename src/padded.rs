//! A wrapper that keeps a value off the cache lines of its neighbours.

use vstd::prelude::*;

verus! {

/// Holds a value followed by one cache line of padding, so that data placed
/// after it starts on a different cache line.
pub struct CachePadded<T> {
    value: T,
    pad: [u8; 128],
}

impl<T> CachePadded<T> {
    /// The wrapped value.
    pub closed spec fn inner(self) -> T {
        self.value
    }

    /// Wraps `value`.
    pub fn new(value: T) -> (r: Self)
        ensures
            r.inner() == value,
    {
        CachePadded { value, pad: [0u8; 128] }
    }

    /// A shared reference to the wrapped value.
    pub fn get(&self) -> (r: &T)
        ensures
            *r == self.inner(),
    {
        &self.value
    }

    /// A mutable reference to the wrapped value.
    pub fn get_mut(&mut self) -> (r: &mut T)
        ensures
            *r == old(self).inner(),
            final(self).inner() == *final(r),
    {
        &mut self.value
    }

    /// Unwraps the value.
    pub fn into_inner(self) -> (r: T)
        ensures
            r == self.inner(),
    {
        self.value
    }
}

} // verus!
