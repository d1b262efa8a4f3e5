//! Values meant to sit on a cache line of their own.

use vstd::prelude::*;

verus! {

/// The bytes that keep two values on separate cache lines, adjacent-line prefetch counted.
pub const CACHE_LINE: usize = 128;

/// A value followed by a full cache line of padding.
///
/// Two such values that lie next to each other are at least [`CACHE_LINE`] bytes apart, so
/// that a write to one never disturbs a cached copy of the other.
#[derive(Debug)]
pub struct CachePadded<T> {
    value: T,
    padding: [u8; CACHE_LINE],
}

impl<T> CachePadded<T> {
    /// The value.
    pub closed spec fn value(&self) -> T {
        self.value
    }

    /// Wraps a value.
    pub fn new(v: T) -> (r: Self)
        ensures
            r.value() == v,
    {
        CachePadded { value: v, padding: [0u8; 128] }
    }

    /// Unwraps the value.
    pub fn into_inner(self) -> (r: T)
        ensures
            r == self.value(),
    {
        self.value
    }

    /// The value, to be changed in place.
    pub fn get_mut(&mut self) -> (r: &mut T)
        ensures
            *r == old(self).value(),
            final(self).value() == *final(r),
    {
        &mut self.value
    }
}

impl<T> core::ops::Deref for CachePadded<T> {
    type Target = T;

    fn deref(&self) -> (r: &T)
        ensures
            *r == self.value(),
    {
        &self.value
    }
}

impl<T: Default> Default for CachePadded<T> {
    fn default() -> (r: Self)
        ensures
            call_ensures(T::default, (), r.value()),
    {
        CachePadded::new(T::default())
    }
}

} // verus!
