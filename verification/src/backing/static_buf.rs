//! `StaticBacked`: a borrowed buffer as a region.

use crate::fixed_range::FixedRange;
use crate::layout::AllocError;
use core::marker::PhantomData;
use vstd::prelude::*;

verus! {

/// A region over a buffer that is borrowed for as long as the region is in use.
pub struct StaticBacked<'a> {
    addr: usize,
    len: usize,
    _marker: PhantomData<&'a mut [u8]>,
}

impl<'a> StaticBacked<'a> {
    /// The region over `buf`, which starts at `addr`. The buffer may be empty.
    pub fn new(buf: &'a mut [u8], addr: usize) -> (r: Self)
        requires
            addr > 0,
            addr + old(buf)@.len() <= usize::MAX + 1,
        ensures
            r.start() == addr,
            r.capacity() == old(buf)@.len(),
            final(buf)@ == old(buf)@,
    {
        let len: usize = buf.len();
        StaticBacked { addr, len, _marker: PhantomData }
    }

    pub closed spec fn capacity_spec(&self) -> usize {
        self.len
    }

    /// The length of the buffer.
    #[verifier::when_used_as_spec(capacity_spec)]
    pub fn capacity(&self) -> (r: usize)
        ensures
            r == self.capacity(),
            r == self.extent(),
    {
        self.len
    }
}

impl<'a> FixedRange for StaticBacked<'a> {
    closed spec fn start(&self) -> usize {
        self.addr
    }

    open spec fn extent(&self) -> usize {
        self.capacity()
    }

    open spec fn commits(&self, offset: int, len: int) -> bool {
        true
    }

    fn base(&self) -> (r: usize) {
        self.addr
    }

    fn size(&self) -> (r: usize) {
        self.len
    }

    fn commit(&self, offset: usize, len: usize) -> (r: Result<(), AllocError>) {
        Ok(())
    }
}

} // verus!
