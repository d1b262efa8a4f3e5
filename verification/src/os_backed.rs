//! Allocators over memory that the operating system manages.

use crate::allocator::Allocator;
use crate::bump;
use crate::os::OsCall;
use vstd::prelude::*;

verus! {

/// What may be done with a range of memory.
#[non_exhaustive]
#[derive(Clone, Copy, Debug, PartialEq, Eq, Structural)]
pub struct ProtectFlags {
    /// The range may be read.
    pub read: bool,
    /// The range may be written.
    pub write: bool,
    /// The range may be executed.
    pub execute: bool,
}

impl ProtectFlags {
    /// No access.
    #[verifier::allow_in_spec]
    pub fn none() -> (r: Self)
        returns
            (ProtectFlags { read: false, write: false, execute: false }),
    {
        ProtectFlags { read: false, write: false, execute: false }
    }

    /// Reading and writing.
    #[verifier::allow_in_spec]
    pub fn rw() -> (r: Self)
        returns
            (ProtectFlags { read: true, write: true, execute: false }),
    {
        ProtectFlags { read: true, write: true, execute: false }
    }

    /// Reading only.
    #[verifier::allow_in_spec]
    pub fn read() -> (r: Self)
        returns
            (ProtectFlags { read: true, write: false, execute: false }),
    {
        ProtectFlags { read: true, write: false, execute: false }
    }

    /// Reading and executing.
    #[verifier::allow_in_spec]
    pub fn rx() -> (r: Self)
        returns
            (ProtectFlags { read: true, write: false, execute: true }),
    {
        ProtectFlags { read: true, write: false, execute: true }
    }
}

/// An allocator whose blocks lie in one mapping of the operating system.
pub trait OsBacked: Allocator {
    /// The first address of the mapping.
    spec fn os_base(&self) -> usize;

    /// The length of the mapping.
    spec fn os_size(&self) -> usize;

    /// The call that gives back the pages behind a range, if one is made.
    spec fn release_call(&self, addr: usize, size: usize) -> Option<OsCall>;

    /// The call that changes the protection of a range.
    spec fn protect_call(&self, addr: usize, size: usize, flags: ProtectFlags) -> OsCall;

    /// The mapping does not wrap round the address space, and blocks are issued from it
    /// alone.
    proof fn mapping_bounds(&self)
        requires
            self.wf(),
        ensures
            self.os_base() > 0,
            self.os_base() + self.os_size() <= usize::MAX + 1,
            self.region().subset_of(bump::addresses(self.os_base() as int, self.os_size() as int)),
    ;

    /// The first address of the mapping.
    fn base_ptr(&self) -> (r: usize)
        requires
            self.wf(),
        ensures
            r == self.os_base(),
    ;

    /// The length of the mapping.
    fn region_size(&self) -> (r: usize)
        requires
            self.wf(),
        ensures
            r == self.os_size(),
    ;

    /// The call that gives back the pages behind a range of the mapping. What the range
    /// holds afterwards is up to the system, so no block in use should overlap it. Nothing
    /// outside the range is touched.
    fn release_pages(&self, addr: usize, size: usize) -> (r: Option<OsCall>)
        requires
            self.wf(),
            self.os_base() <= addr,
            addr + size <= self.os_base() + self.os_size(),
        ensures
            r == self.release_call(addr, size),
            r matches Some(c) ==> c matches OsCall::Release { addr: a, len: l } && addr <= a && a
                + l <= addr + size,
    ;

    /// The call that changes the protection of a range of the mapping.
    fn protect(&self, addr: usize, size: usize, flags: ProtectFlags) -> (r: OsCall)
        requires
            self.wf(),
            self.os_base() <= addr,
            addr + size <= self.os_base() + self.os_size(),
        ensures
            r == self.protect_call(addr, size, flags),
            r == (OsCall::Protect { addr, len: size, flags }),
    ;
}

} // verus!
