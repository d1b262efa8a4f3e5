//! Composable memory allocators whose behaviour is stated and proved.

pub mod alloc_fault_policy;
pub mod allocator;
pub mod backing;
pub mod bits;
pub mod bump;
pub mod bump_arena;
pub mod cache_padded;
pub mod capi;
pub mod fixed_range;
pub mod freelist_protection;
pub mod hardening;
pub mod laws;
pub mod layout;
pub mod memory;
pub mod os;
pub mod os_backed;
mod outside;
pub mod placement;
pub mod std_compat;
pub mod testing;

pub use crate::alloc_fault_policy::{
    AllocFaultPolicy, AlwaysFail, FailAfter, FailEveryNth, FailOnSize, NeverFail,
};
pub use crate::allocator::{Allocator, Block, Corruption, Deallocator, ResizeError};
pub use crate::backing::{
    HeapBytes, HugePageBacked, InlineBacked, LockedMmapBacked, MmapBacked, MmapFlags, StaticBacked,
    MAX_ALIGN,
};
pub use crate::bump_arena::BumpArena;
pub use crate::cache_padded::CachePadded;
pub use crate::fixed_range::FixedRange;
pub use crate::freelist_protection::{
    FreelistCorruption, FreelistProtection, NoProtection, SipHashMAC,
};
pub use crate::hardening::{
    AllocStats, CacheJitter, Canary, Faulty, GuardPage, HugePageAligned, NodeSet, NumaLocal,
    NumaPolicy, PoisonOnFree, SplitMetadata, Statistics, ZeroizeOnFree, DEFAULT_POISON,
};
pub use crate::layout::{AllocError, Layout, LayoutError, NonZeroLayout};
pub use crate::memory::{ByteMemory, Memory};
pub use crate::os_backed::{OsBacked, ProtectFlags};
pub use crate::std_compat::StdCompat;
