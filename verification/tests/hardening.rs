//! The hardening wrappers.

use forge_alloc::alloc_fault_policy::{
    AlwaysFail, FailAfter, FailEveryNth, FailOnSize, NeverFail,
};
use forge_alloc::allocator::{
    Addresses, Allocator, Block, Blocks, Corruption, Deallocator, Residue, ResizeError, Verdict,
};
use forge_alloc::backing::inline::{InlineBacked, MAX_ALIGN};
use forge_alloc::backing::mmap::MmapBacked;
use forge_alloc::bump_arena::BumpArena;
use forge_alloc::fixed_range::FixedRange;
use forge_alloc::hardening::cache_jitter::{CacheJitter, JITTER_HEADER_SIZE, MAX_ASSOCIATIVITY};
use forge_alloc::hardening::canary::{Canary, ZERO_SEED_CANARY};
use forge_alloc::hardening::faulty::Faulty;
use forge_alloc::hardening::guard_page::GuardPage;
use forge_alloc::hardening::huge_page::{default_huge_page_size, HugePageAligned};
use forge_alloc::hardening::numa::{
    current_numa_node, mbind_args, NodeSet, NumaLocal, NumaPolicy, MPOL_BIND, MPOL_INTERLEAVE,
    MPOL_PREFERRED,
};
use forge_alloc::hardening::poison::{PoisonOnFree, DEFAULT_POISON};
use forge_alloc::hardening::split_metadata::SplitMetadata;
use forge_alloc::hardening::statistics::{AllocStats, Statistics};
use forge_alloc::hardening::zeroize::ZeroizeOnFree;
use forge_alloc::memory::{
    fill, load_word, store_word, Address, ByteMemory, Bytes, Memory,
};
use forge_alloc::os::{
    mmap_clear_last_os_error, mmap_last_os_error, page_size, OsCall, OsErrorSlot, Platform, Target,
};
use forge_alloc::os_backed::{OsBacked, ProtectFlags};
use forge_alloc::{AllocError, NonZeroLayout};
use std::cell::Cell;
use std::collections::BTreeSet;

const EPERM: i32 = 1;
const MAPPED_AT: usize = 0x4000_0000;

fn layout(size: usize, align: usize) -> NonZeroLayout {
    NonZeroLayout::from_size_align(size, align).unwrap()
}

fn platform() -> Platform {
    Platform::new(Target::Linux, page_size(4096))
}

/// A mapping that the system has placed at `MAPPED_AT`.
fn mapped(size: usize) -> MmapBacked {
    let mut slot = OsErrorSlot::new();
    MmapBacked::new(size, &platform(), Ok(MAPPED_AT), &mut slot).unwrap()
}

fn mapped_arena(size: usize) -> BumpArena<MmapBacked> {
    BumpArena::new(mapped(size)).unwrap()
}

fn arena<const N: usize>() -> BumpArena<InlineBacked<N>> {
    BumpArena::new(InlineBacked::<N>::new()).unwrap()
}

fn inline_memory(len: usize) -> ByteMemory {
    ByteMemory::zeroed(MAX_ALIGN, len)
}

/// A mapping that keeps the layout for which its usable size was last asked, and reports the
/// damage events that it is told to.
struct RecordingBacked {
    last_size: Cell<usize>,
    last_align: Cell<usize>,
    events: Cell<u64>,
}

impl RecordingBacked {
    fn new() -> Self {
        RecordingBacked {
            last_size: Cell::new(0),
            last_align: Cell::new(0),
            events: Cell::new(0),
        }
    }
}

impl Deallocator for RecordingBacked {
    fn wf(&self) -> bool {
        unreachable!()
    }

    fn region(&self) -> Addresses {
        unreachable!()
    }

    fn live(&self) -> Blocks {
        unreachable!()
    }

    fn budget(&self) -> Option<usize> {
        unreachable!()
    }

    fn events(&self) -> u64 {
        unreachable!()
    }

    fn residue(&self) -> Residue {
        unreachable!()
    }

    fn verdict(&self, _m: Bytes, _p: Address) -> Verdict {
        unreachable!()
    }

    fn freed(&self, _m: Bytes, _p: Address) -> Bytes {
        unreachable!()
    }

    fn after_return(&self, _m: Bytes, _p: Address, _next: Self) -> bool {
        unreachable!()
    }

    fn live_blocks(&self) {}

    fn bookkeeping_apart(&self, _m1: Bytes, _m2: Bytes, _p: Address) {}

    fn deallocate<M: Memory>(
        &mut self,
        _mem: &mut M,
        _ptr: usize,
        _layout: NonZeroLayout,
    ) -> Result<(), Corruption> {
        Ok(())
    }
}

impl Allocator for RecordingBacked {
    fn outcome(&self, _layout: NonZeroLayout) -> Option<Block> {
        unreachable!()
    }

    fn issued(&self, _m: Bytes, _layout: NonZeroLayout) -> Bytes {
        unreachable!()
    }

    fn usable(&self, _p: Address, _layout: NonZeroLayout) -> Option<usize> {
        unreachable!()
    }

    fn resettable(&self) -> bool {
        unreachable!()
    }

    fn after_issue(&self, _layout: NonZeroLayout, _next: Self) -> bool {
        unreachable!()
    }

    fn after_reset(&self, _next: Self) -> bool {
        unreachable!()
    }

    fn allocate<M: Memory>(
        &mut self,
        _mem: &mut M,
        _layout: NonZeroLayout,
    ) -> Result<Block, AllocError> {
        Err(AllocError)
    }

    fn reset(&mut self) -> Result<(), AllocError> {
        Err(AllocError)
    }

    fn usable_size(&self, _ptr: usize, layout: NonZeroLayout) -> Option<usize> {
        self.last_size.set(layout.size());
        self.last_align.set(layout.align());
        Some(0xC0DE)
    }

    fn capacity_bytes(&self) -> Option<usize> {
        None
    }

    fn corruption_events(&self) -> u64 {
        self.events.get()
    }
}

impl OsBacked for RecordingBacked {
    fn os_base(&self) -> usize {
        unreachable!()
    }

    fn os_size(&self) -> usize {
        unreachable!()
    }

    fn release_call(&self, _addr: usize, _size: usize) -> Option<OsCall> {
        unreachable!()
    }

    fn protect_call(&self, _addr: usize, _size: usize, _flags: ProtectFlags) -> OsCall {
        unreachable!()
    }

    fn mapping_bounds(&self) {}

    fn base_ptr(&self) -> usize {
        1
    }

    fn region_size(&self) -> usize {
        0
    }

    fn release_pages(&self, _addr: usize, _size: usize) -> Option<OsCall> {
        None
    }

    fn protect(&self, addr: usize, size: usize, flags: ProtectFlags) -> OsCall {
        OsCall::Protect { addr, len: size, flags }
    }
}

// Cache jitter.

fn build_inline() -> CacheJitter<BumpArena<InlineBacked<8192>>> {
    CacheJitter::with_params(arena::<8192>(), 64, 8, 0x1234_5678_9ABC_DEF0).expect("valid params")
}

fn build_mmap() -> CacheJitter<BumpArena<MmapBacked>> {
    CacheJitter::with_params(mapped_arena(64 * 1024), 64, 8, 0x1234_5678_9ABC_DEF0)
        .expect("valid params")
}

#[test]
fn rejects_non_power_of_two_line() {
    assert!(CacheJitter::with_params(arena::<256>(), 24, 8, 1).is_none());
}

#[test]
fn rejects_zero_associativity() {
    assert!(CacheJitter::with_params(arena::<256>(), 64, 0, 1).is_none());
}

#[test]
fn rejects_too_small_line() {
    assert!(CacheJitter::with_params(arena::<256>(), 4, 8, 1).is_none());
}

#[test]
fn alloc_then_dealloc_round_trips() {
    let mut mem = ByteMemory::zeroed(MAPPED_AT, 64 * 1024);
    let mut cj = build_mmap();
    let l = layout(32, 8);
    let block = cj.allocate(&mut mem, l).unwrap();
    fill(&mut mem, block.addr, 32, 0x42);
    assert!(cj.deallocate(&mut mem, block.addr, l).is_ok());
}

#[test]
fn user_ptr_aligned_for_layout() {
    let mut mem = ByteMemory::zeroed(MAPPED_AT, 64 * 1024);
    let mut cj = build_mmap();
    let l = layout(16, 16);
    for _ in 0..32 {
        let block = cj.allocate(&mut mem, l).unwrap();
        assert_eq!(block.addr % 16, 0, "user ptr must respect requested align");
    }
}

#[test]
fn displacement_distribution_hits_multiple_sets() {
    let mut mem = ByteMemory::zeroed(MAPPED_AT, 64 * 1024);
    let mut cj = build_mmap();
    let l = layout(32, 8);
    let mut offsets = BTreeSet::new();
    for _ in 0..64 {
        let block = cj.allocate(&mut mem, l).unwrap();
        offsets.insert(block.addr % (8 * 64));
    }
    assert!(
        offsets.len() >= 4,
        "expected diverse cache-set landing offsets, got {}",
        offsets.len(),
    );
}

#[test]
fn oversized_align_passes_through_without_jitter() {
    let mut mem = inline_memory(8192);
    let mut cj = build_inline();
    let l = layout(8, 128);
    if let Ok(block) = cj.allocate(&mut mem, l) {
        fill(&mut mem, block.addr, 8, 0xAA);
        assert!(cj.deallocate(&mut mem, block.addr, l).is_ok());
    }
}

#[test]
fn deterministic_with_same_seed() {
    let mut mem = ByteMemory::zeroed(MAPPED_AT, 64 * 1024);
    let mut cj_a =
        CacheJitter::with_params(mapped_arena(64 * 1024), 64, 8, 0xDEAD_BEEF_CAFE_BABE).unwrap();
    let mut cj_b =
        CacheJitter::with_params(mapped_arena(64 * 1024), 64, 8, 0xDEAD_BEEF_CAFE_BABE).unwrap();
    let l = layout(32, 8);
    for _ in 0..8 {
        let a = cj_a.allocate(&mut mem, l).unwrap().addr;
        let b = cj_b.allocate(&mut mem, l).unwrap().addr;
        assert_eq!(
            a - cj_a.inner().base(),
            b - cj_b.inner().base(),
            "same seed must give same displacement"
        );
    }
}

#[test]
fn os_seeded_constructor() {
    let mut mem = ByteMemory::zeroed(MAPPED_AT, 16 * 1024);
    let mut cj = CacheJitter::new(mapped_arena(16 * 1024), 64, 8).expect("valid params");
    let _ = cj.allocate(&mut mem, layout(16, 8)).unwrap();
}

#[test]
#[should_panic(expected = "prefix header MAC failed")]
fn corrupted_header_panics_on_dealloc() {
    let mut mem = ByteMemory::zeroed(MAPPED_AT, 64 * 1024);
    let mut cj = build_mmap();
    let l = layout(32, 8);
    let block = cj.allocate(&mut mem, l).unwrap();
    store_word(&mut mem, block.addr - JITTER_HEADER_SIZE, 0xDEAD_BEEF_CAFE_BABE);
    cj.deallocate(&mut mem, block.addr, l).expect("prefix header MAC failed");
}

#[test]
#[should_panic(expected = "prefix header MAC failed")]
fn zeroed_header_panics_on_dealloc() {
    let mut mem = ByteMemory::zeroed(MAPPED_AT, 64 * 1024);
    let mut cj = build_mmap();
    let l = layout(32, 8);
    let block = cj.allocate(&mut mem, l).unwrap();
    store_word(&mut mem, block.addr - JITTER_HEADER_SIZE, 0);
    cj.deallocate(&mut mem, block.addr, l).expect("prefix header MAC failed");
}

#[test]
fn damaged_headers_are_reported() {
    let mut mem = ByteMemory::zeroed(MAPPED_AT, 64 * 1024);
    let mut cj = build_mmap();
    let l = layout(32, 8);
    let block = cj.allocate(&mut mem, l).unwrap();
    let header = load_word(&mem, block.addr - JITTER_HEADER_SIZE);
    for bit in 16..64 {
        store_word(&mut mem, block.addr - JITTER_HEADER_SIZE, header ^ (1 << bit));
        assert_eq!(
            cj.deallocate(&mut mem, block.addr, l),
            Err(Corruption::JitterHeader),
            "flipped bit {bit}"
        );
    }
    store_word(&mut mem, block.addr - JITTER_HEADER_SIZE, header);
    assert_eq!(cj.deallocate(&mut mem, block.addr, l), Ok(()));
}

#[test]
fn associativity_at_and_past_encoding_limit() {
    assert!(
        CacheJitter::with_params(mapped_arena(64 * 1024), 64, MAX_ASSOCIATIVITY, 1).is_some(),
        "MAX_ASSOCIATIVITY = {MAX_ASSOCIATIVITY} must be admitted",
    );
    assert!(
        CacheJitter::with_params(mapped_arena(64 * 1024), 64, MAX_ASSOCIATIVITY + 1, 1).is_none(),
        "MAX_ASSOCIATIVITY + 1 must be rejected",
    );
}

#[test]
fn rejects_cache_line_assoc_overflow() {
    let line = 1usize << (usize::BITS - 1);
    if line.is_power_of_two() && line >= 8 {
        assert!(
            CacheJitter::with_params(arena::<256>(), line, 4, 1).is_none(),
            "line * assoc overflow must be rejected",
        );
    }
}

#[test]
fn smallest_line_largest_assoc_round_trips() {
    let size = 8 * (MAX_ASSOCIATIVITY + 16);
    let mut mem = ByteMemory::zeroed(MAPPED_AT, size + 4096);
    let mut cj = CacheJitter::with_params(mapped_arena(size), 8, MAX_ASSOCIATIVITY, 1).unwrap();
    let l = layout(8, 8);
    let block = cj.allocate(&mut mem, l).unwrap();
    assert!(cj.deallocate(&mut mem, block.addr, l).is_ok());
}

#[test]
fn rejects_zero_cache_line() {
    assert!(CacheJitter::with_params(arena::<256>(), 0, 8, 1).is_none());
}

#[test]
fn zero_seed_substitution_yields_working_rng() {
    let mut mem = ByteMemory::zeroed(MAPPED_AT, 64 * 1024);
    let mut cj =
        CacheJitter::with_params(mapped_arena(64 * 1024), 64, 8, 0).expect("zero seed must work");
    let l = layout(32, 8);
    let base = cj.inner().base();
    let mut sets = BTreeSet::new();
    for _ in 0..32 {
        let p = cj.allocate(&mut mem, l).unwrap().addr;
        sets.insert((p - base) % (8 * 64));
    }
    assert!(
        sets.len() >= 2,
        "zero-seed substitution must produce a non-stuck RNG; only saw {} \
         distinct cache-set offsets",
        sets.len(),
    );
}

#[test]
fn assoc_one_disp_zero_mac_differs_from_zero_header() {
    let mut mem = ByteMemory::zeroed(MAPPED_AT, 64 * 1024);
    let mut cj =
        CacheJitter::with_params(mapped_arena(64 * 1024), 64, 1, 0xDEAD_BEEF_CAFE_BABE).unwrap();
    let l = layout(32, 8);
    let block = cj.allocate(&mut mem, l).unwrap();
    let stored = load_word(&mem, block.addr - JITTER_HEADER_SIZE);
    assert_ne!(
        stored, 0,
        "MAC over (user_ptr, disp=0) must produce non-zero high bits — \
         otherwise a zeroed-prefix forge would survive the check"
    );
    assert!(cj.deallocate(&mut mem, block.addr, l).is_ok());
}

#[test]
fn jitter_reports_its_parameters_and_no_usable_size() {
    let mut mem = ByteMemory::zeroed(MAPPED_AT, 64 * 1024);
    let mut cj = build_mmap();
    assert_eq!((cj.cache_line_size(), cj.associativity()), (64, 8));
    let l = layout(32, 8);
    let block = cj.allocate(&mut mem, l).unwrap();
    assert_eq!(block.len, 32);
    assert_eq!(cj.usable_size(block.addr, l), None);
    assert_eq!(cj.size(), 64 * 1024);
}

// Canaries.

fn build_canary() -> Canary<BumpArena<InlineBacked<2048>>> {
    Canary::new_with_seed(arena::<2048>(), 0x1234_5678_9ABC_DEF0)
}

#[test]
fn alloc_then_dealloc_passes_verification() {
    let mut mem = inline_memory(2048);
    let mut c = build_canary();
    let l = layout(32, 8);
    let block = c.allocate(&mut mem, l).unwrap();
    fill(&mut mem, block.addr, 32, 0x42);
    assert!(c.deallocate(&mut mem, block.addr, l).is_ok());
}

#[test]
fn alignment_above_eight_works() {
    let mut mem = inline_memory(2048);
    let mut c = build_canary();
    let l = layout(16, 16);
    let block = c.allocate(&mut mem, l).unwrap();
    assert_eq!(block.addr % 16, 0, "user ptr must be 16-aligned");
    assert!(c.deallocate(&mut mem, block.addr, l).is_ok());
}

#[test]
#[should_panic(expected = "canary corruption")]
fn pre_canary_overflow_detected() {
    let mut mem = inline_memory(2048);
    let mut c = build_canary();
    let l = layout(16, 8);
    let block = c.allocate(&mut mem, l).unwrap();
    mem.store(block.addr - 1, 0xFF);
    c.deallocate(&mut mem, block.addr, l).expect("canary corruption");
}

#[test]
#[should_panic(expected = "canary corruption")]
fn post_canary_overflow_detected() {
    let mut mem = inline_memory(2048);
    let mut c = build_canary();
    let l = layout(16, 8);
    let block = c.allocate(&mut mem, l).unwrap();
    mem.store(block.addr + 16, 0xFF);
    c.deallocate(&mut mem, block.addr, l).expect("canary corruption");
}

#[test]
fn overwritten_guards_are_told_apart() {
    let l = layout(16, 8);
    for i in 0..8 {
        let mut mem = inline_memory(2048);
        let mut c = build_canary();
        let block = c.allocate(&mut mem, l).unwrap();
        let front = block.addr - 8 + i;
        let b = mem.load(front);
        mem.store(front, b ^ 0x80);
        assert_eq!(c.deallocate(&mut mem, block.addr, l), Err(Corruption::PreCanary));
        mem.store(front, b);
        let back = block.addr + 16 + i;
        let b = mem.load(back);
        mem.store(back, b ^ 0x01);
        assert_eq!(c.deallocate(&mut mem, block.addr, l), Err(Corruption::PostCanary));
        mem.store(back, b);
        assert_eq!(c.deallocate(&mut mem, block.addr, l), Ok(()));
    }
}

#[test]
fn canary_zero_seed_replaced() {
    let c = Canary::new_with_seed(InlineBacked::<64>::new(), 0);
    assert_ne!(c.canary_value(), 0);
    assert_eq!(c.canary_value(), ZERO_SEED_CANARY);
}

#[test]
fn os_seeded_constructor_nonzero() {
    let c = Canary::new(InlineBacked::<64>::new());
    assert_ne!(c.canary_value(), 0);
}

#[test]
fn random_guard_words_differ() {
    let a = Canary::new(InlineBacked::<64>::new());
    let b = Canary::new(InlineBacked::<64>::new());
    assert_ne!(a.canary_value(), b.canary_value());
}

#[test]
fn canary_value_is_per_instance_not_per_allocation() {
    let mut mem = inline_memory(2048);
    let mut c = build_canary();
    let l = layout(32, 8);
    let v_before_first = c.canary_value();
    let block_a = c.allocate(&mut mem, l).unwrap();
    let v_after_first = c.canary_value();
    assert!(c.deallocate(&mut mem, block_a.addr, l).is_ok());
    let v_after_dealloc = c.canary_value();
    let _block_b = c.allocate(&mut mem, l).unwrap();
    let v_after_second = c.canary_value();
    assert_eq!(v_before_first, v_after_first);
    assert_eq!(v_after_first, v_after_dealloc);
    assert_eq!(v_after_dealloc, v_after_second);
}

#[test]
fn guard_words_stand_on_both_sides() {
    let mut mem = inline_memory(2048);
    let mut c = build_canary();
    let block = c.allocate(&mut mem, layout(12, 4)).unwrap();
    assert_eq!(load_word(&mem, block.addr - 8), 0x1234_5678_9ABC_DEF0);
    assert_eq!(load_word(&mem, block.addr + 12), 0x1234_5678_9ABC_DEF0);
    assert_eq!(c.usable_size(block.addr, layout(12, 4)), None);
}

#[test]
fn a_wiped_canary_holds_no_seed() {
    let mut c = build_canary();
    c.wipe();
    assert_eq!(c.canary_value(), 0);
}

// Injected faults.

fn word() -> NonZeroLayout {
    NonZeroLayout::for_type::<u64>().unwrap()
}

#[test]
fn never_fail_is_transparent() {
    let mut mem = inline_memory(256);
    let mut f = Faulty::new(arena::<256>(), NeverFail);
    assert!(f.allocate(&mut mem, word()).is_ok());
    assert!(f.allocate(&mut mem, word()).is_ok());
}

#[test]
fn always_fail_fails_every_allocation() {
    let mut mem = inline_memory(256);
    let mut f = Faulty::new(arena::<256>(), AlwaysFail);
    assert!(f.allocate(&mut mem, word()).is_err());
    assert!(f.allocate(&mut mem, word()).is_err());
}

#[test]
fn faulty_fail_after_permits_then_fails() {
    let mut mem = inline_memory(512);
    let mut f = Faulty::new(arena::<512>(), FailAfter::new(2));
    assert!(f.allocate(&mut mem, word()).is_ok());
    assert!(f.allocate(&mut mem, word()).is_ok());
    assert!(f.allocate(&mut mem, word()).is_err());
    assert!(f.allocate(&mut mem, word()).is_err());
}

#[test]
fn fail_on_size_discriminates_by_request_size() {
    let mut mem = inline_memory(4096);
    let mut f = Faulty::new(arena::<4096>(), FailOnSize::new(256));
    assert!(f.allocate(&mut mem, layout(64, 8)).is_ok());
    assert!(f.allocate(&mut mem, layout(512, 8)).is_err());
}

#[test]
fn faulted_allocation_consumes_no_inner_capacity() {
    let mut mem = inline_memory(16);
    let mut f = Faulty::new(arena::<16>(), FailEveryNth::new(2));
    assert!(f.allocate(&mut mem, word()).is_ok());
    assert!(f.allocate(&mut mem, word()).is_err());
    assert!(f.allocate(&mut mem, word()).is_ok());
    assert!(f.allocate(&mut mem, word()).is_err());
    assert!(f.allocate(&mut mem, word()).is_err());
}

#[test]
fn deallocate_forwards_under_failing_policy() {
    let mut mem = inline_memory(8);
    let mut f = Faulty::new(PoisonOnFree::new(arena::<8>()), FailAfter::new(1));
    let p = f.allocate(&mut mem, word()).unwrap();
    assert!(f.allocate(&mut mem, word()).is_err());
    assert!(f.deallocate(&mut mem, p.addr, word()).is_ok());
    assert_eq!(mem.load(p.addr), DEFAULT_POISON);
}

#[test]
fn allocate_zeroed_routes_through_policy() {
    let mut mem = inline_memory(256);
    let mut f = Faulty::new(arena::<256>(), AlwaysFail);
    assert!(f.allocate_zeroed(&mut mem, word()).is_err());
}

#[test]
fn faulty_reset_forwards_to_inner_arena() {
    let mut mem = inline_memory(256);
    let mut f = Faulty::new(arena::<256>(), NeverFail);
    let _ = f.allocate(&mut mem, word()).unwrap();
    assert!(f.reset().is_ok());
    assert!(f.allocate(&mut mem, word()).is_ok());
}

#[test]
fn faulty_is_sync_when_parts_are_sync() {
    fn assert_sync<T: Sync>() {}
    assert_sync::<Faulty<BumpArena<InlineBacked<256>>, FailAfter>>();
}

#[test]
fn grow_under_failing_policy_preserves_old_block() {
    let mut mem = inline_memory(512);
    let mut f = Faulty::new(arena::<512>(), FailAfter::new(1));
    let old = layout(16, 8);
    let new = layout(64, 8);
    let block = f.allocate(&mut mem, old).unwrap();
    fill(&mut mem, block.addr, 16, 0x55);
    assert_eq!(
        f.grow(&mut mem, block.addr, old, new),
        Err(ResizeError::Alloc(AllocError)),
        "grow must fail when the policy fails the new allocation",
    );
    for i in 0..16 {
        assert_eq!(mem.load(block.addr + i), 0x55, "grow corrupted the old block");
    }
    assert!(f.deallocate(&mut mem, block.addr, old).is_ok());
}

#[test]
fn forwards_capacity_bytes() {
    let f = Faulty::new(arena::<512>(), NeverFail);
    let bare = arena::<512>();
    assert_eq!(
        f.capacity_bytes(),
        bare.capacity_bytes(),
        "capacity_bytes must forward to inner, not be None",
    );
    assert!(bare.capacity_bytes().is_some(), "bare arena must report a capacity");
    assert_eq!(f.corruption_events(), 0);
}

#[test]
fn faulty_comes_apart_into_its_parts() {
    let mut mem = inline_memory(64);
    let mut f = Faulty::new(arena::<64>(), FailAfter::new(3));
    let _ = f.allocate(&mut mem, word()).unwrap();
    assert_eq!(f.policy().remaining(), 2);
    assert_eq!(f.inner().allocated(), 8);
    let (inner, policy) = f.into_parts();
    assert_eq!((inner.allocated(), policy.remaining()), (8, 2));
}

// Poison.

#[test]
fn freed_bytes_carry_poison_pattern() {
    let mut mem = inline_memory(512);
    let mut p = PoisonOnFree::new(arena::<512>());
    let l = NonZeroLayout::for_type::<[u8; 32]>().unwrap();
    let block = p.allocate(&mut mem, l).unwrap();
    fill(&mut mem, block.addr, 32, 0xAA);
    assert_eq!(mem.load(block.addr), 0xAA);
    assert!(p.deallocate(&mut mem, block.addr, l).is_ok());
    for i in 8..32 {
        assert_eq!(
            mem.load(block.addr + i),
            DEFAULT_POISON,
            "tail byte {i} not poisoned",
        );
    }
}

#[test]
fn grow_poisons_the_moved_from_block() {
    let mut mem = inline_memory(256);
    let mut p = PoisonOnFree::with_pattern(arena::<256>(), 0xBB);
    let old = layout(16, 8);
    let new = layout(32, 8);
    let block = p.allocate(&mut mem, old).unwrap();
    fill(&mut mem, block.addr, 16, 0xAA);
    let grown = p.grow(&mut mem, block.addr, old, new).unwrap();
    assert_ne!(block.addr, grown.addr);
    for i in 0..16 {
        assert_eq!(mem.load(block.addr + i), 0xBB, "moved-from byte {i} not poisoned");
    }
    assert_eq!(mem.load(grown.addr), 0xAA);
}

#[test]
fn poison_pattern_observable_on_bump_arena() {
    let mut mem = inline_memory(256);
    let mut p = PoisonOnFree::with_pattern(arena::<256>(), 0xBB);
    let l = layout(16, 8);
    let block = p.allocate(&mut mem, l).unwrap();
    fill(&mut mem, block.addr, 16, 0xAA);
    assert!(p.deallocate(&mut mem, block.addr, l).is_ok());
    for i in 0..16 {
        assert_eq!(mem.load(block.addr + i), 0xBB, "byte {i} not poisoned");
    }
}

#[test]
fn default_pattern_is_0xde() {
    let p = PoisonOnFree::new(InlineBacked::<64>::new());
    assert_eq!(p.pattern(), 0xDE);
}

#[test]
fn explicit_pattern_set() {
    let p = PoisonOnFree::with_pattern(InlineBacked::<64>::new(), 0x42);
    assert_eq!(p.pattern(), 0x42);
}

#[test]
fn poison_reset_forwards_to_inner_arena() {
    let mut mem = inline_memory(256);
    let mut p = PoisonOnFree::new(arena::<256>());
    let _ = p.allocate(&mut mem, layout(16, 8)).unwrap();
    assert!(p.inner().allocated() > 0);
    assert!(p.reset().is_ok(), "wrapped arena must be resettable");
    assert_eq!(p.inner().allocated(), 0);
}

// Zeroing.

#[test]
fn freed_bytes_are_zeroed_on_bump_arena() {
    let mut mem = inline_memory(256);
    let mut z = ZeroizeOnFree::new(arena::<256>());
    let l = layout(16, 8);
    let block = z.allocate(&mut mem, l).unwrap();
    fill(&mut mem, block.addr, 16, 0xAA);
    assert_eq!(mem.load(block.addr), 0xAA);
    assert!(z.deallocate(&mut mem, block.addr, l).is_ok());
    for i in 0..16 {
        assert_eq!(mem.load(block.addr + i), 0x00, "byte {i} was not zeroed");
    }
}

#[test]
fn grow_zeroes_the_moved_from_block() {
    let mut mem = inline_memory(256);
    let mut z = ZeroizeOnFree::new(arena::<256>());
    let old = layout(16, 8);
    let new = layout(32, 8);
    let block = z.allocate(&mut mem, old).unwrap();
    fill(&mut mem, block.addr, 16, 0xAA);
    let grown = z.grow(&mut mem, block.addr, old, new).unwrap();
    assert_ne!(block.addr, grown.addr);
    for i in 0..16 {
        assert_eq!(mem.load(block.addr + i), 0x00, "moved-from byte {i} was not zeroed");
    }
    assert_eq!(mem.load(grown.addr), 0xAA);
}

#[test]
fn inner_is_accessible() {
    let z = ZeroizeOnFree::new(InlineBacked::<64>::new());
    assert_eq!(z.size(), 64);
    assert_eq!(z.inner().capacity(), 64);
}

#[test]
fn zeroize_reset_forwards_to_inner_arena() {
    let mut mem = inline_memory(256);
    let mut z = ZeroizeOnFree::new(arena::<256>());
    let _ = z.allocate(&mut mem, layout(16, 8)).unwrap();
    assert!(z.inner().allocated() > 0);
    assert!(z.reset().is_ok(), "wrapped arena must be resettable");
    assert_eq!(z.inner().allocated(), 0);
}

// Statistics.

fn build_statistics() -> Statistics<BumpArena<InlineBacked<512>>> {
    Statistics::new(arena::<512>())
}

#[test]
fn counts_increase_with_allocations() {
    let mut mem = inline_memory(512);
    let mut s = build_statistics();
    assert_eq!(*s.stats().total_allocations, 0);
    let _ = s.allocate(&mut mem, word()).unwrap();
    let _ = s.allocate(&mut mem, word()).unwrap();
    assert_eq!(*s.stats().total_allocations, 2);
    assert_eq!(s.stats().current_bytes(), 16);
}

#[test]
fn peak_updates_above_current() {
    let mut mem = inline_memory(512);
    let mut s = build_statistics();
    let a = s.allocate(&mut mem, word()).unwrap();
    let _b = s.allocate(&mut mem, word()).unwrap();
    assert_eq!(s.stats().peak_bytes(), 16);
    assert!(s.deallocate(&mut mem, a.addr, word()).is_ok());
    assert_eq!(s.stats().peak_bytes(), 16);
    assert_eq!(s.stats().current_bytes(), 8);
}

#[test]
fn failures_counted_separately() {
    let mut mem = inline_memory(8);
    let mut s = Statistics::new(arena::<8>());
    let _ = s.allocate(&mut mem, word()).unwrap();
    let _ = s.allocate(&mut mem, word());
    assert_eq!(*s.stats().failures, 1);
    assert_eq!(*s.stats().total_allocations, 1);
}

#[test]
fn live_count_tracks_balance() {
    let mut mem = inline_memory(512);
    let mut s = build_statistics();
    let a = s.allocate(&mut mem, word()).unwrap();
    let _ = s.allocate(&mut mem, word()).unwrap();
    assert_eq!(s.stats().live_count(), 2);
    assert!(s.deallocate(&mut mem, a.addr, word()).is_ok());
    assert_eq!(s.stats().live_count(), 1);
}

#[test]
fn corruption_events_zero_on_uncorrupted_path() {
    let mut mem = inline_memory(512);
    let mut s = build_statistics();
    assert_eq!(s.corruption_events(), 0);
    assert_eq!(*s.stats().corruption_events, 0);
    let a = s.allocate(&mut mem, word()).unwrap();
    let b = s.allocate(&mut mem, word()).unwrap();
    assert!(s.deallocate(&mut mem, a.addr, word()).is_ok());
    assert!(s.deallocate(&mut mem, b.addr, word()).is_ok());
    assert_eq!(s.corruption_events(), 0);
    assert_eq!(*s.stats().corruption_events, 0);
}

#[test]
fn alloc_stats_corruption_events_field_accessible() {
    let stats = AllocStats::new();
    assert_eq!(*stats.corruption_events, 0);
}

#[test]
fn zeroed_blocks_and_resizes_are_counted() {
    let mut mem = inline_memory(512);
    let mut s = build_statistics();
    let a = s.allocate_zeroed(&mut mem, word()).unwrap();
    let b = s.grow(&mut mem, a.addr, word(), layout(32, 8)).unwrap();
    assert_eq!(b.len, 32);
    assert_eq!(*s.stats().total_allocations, 2);
    assert_eq!(*s.stats().total_deallocations, 1);
    assert_eq!(s.stats().current_bytes(), 32);
    assert_eq!(s.stats().peak_bytes(), 40);
    assert_eq!(s.inner().allocated(), 40);
}

#[test]
fn counted_damage_is_mirrored() {
    let mut mem = inline_memory(8);
    let mut s = Statistics::new(RecordingBacked::new());
    s.inner().events.set(2);
    assert!(s.allocate(&mut mem, word()).is_err());
    assert_eq!(s.corruption_events(), 2);
    assert_eq!(*s.stats().corruption_events, 2);
    assert_eq!(*s.stats().failures, 1);
    s.inner().events.set(1);
    assert!(s.allocate(&mut mem, word()).is_err());
    assert_eq!(*s.stats().corruption_events, 2, "the mirrored count never falls");
}

// Guard pages.

fn guarded(size: usize) -> GuardPage<MmapBacked> {
    let mut slot = OsErrorSlot::new();
    GuardPage::new(mapped(size), page_size(4096), Ok(()), Ok(()), &mut slot).unwrap()
}

#[test]
fn construct_succeeds_for_large_region() {
    let g = guarded(64 * 1024);
    assert!(g.capacity_bytes().unwrap() >= 8 * 1024);
}

#[test]
fn construct_rejects_undersized_region() {
    let mut slot = OsErrorSlot::new();
    assert!(GuardPage::new(mapped(4096), page_size(4096), Ok(()), Ok(()), &mut slot).is_err());
}

#[test]
fn construct_rejects_non_power_of_two_page() {
    let mut slot = OsErrorSlot::new();
    assert!(GuardPage::new(mapped(64 * 1024), 3000, Ok(()), Ok(()), &mut slot).is_err());
}

#[test]
fn allocate_within_usable_doesnt_fault() {
    let mut mem = ByteMemory::zeroed(MAPPED_AT + 4096, 56 * 1024);
    let mut g = guarded(64 * 1024);
    let block = g.allocate(&mut mem, layout(256, 8)).unwrap();
    fill(&mut mem, block.addr, 256, 0xAA);
    assert_eq!(g.allocated(), 256);
}

#[test]
fn allocate_returns_ptr_past_head_guard() {
    let mut mem = ByteMemory::zeroed(MAPPED_AT + 4096, 56 * 1024);
    let inner_base = mapped(64 * 1024).base_ptr();
    let mut g = guarded(64 * 1024);
    let block = g.allocate(&mut mem, layout(8, 8)).unwrap();
    assert!(
        block.addr >= inner_base + page_size(4096),
        "allocation must sit beyond the head guard"
    );
}

#[test]
fn allocate_rejects_oversized_request() {
    let mut mem = ByteMemory::zeroed(MAPPED_AT + 4096, 56 * 1024);
    let mut g = guarded(64 * 1024);
    assert!(g.allocate(&mut mem, layout(64 * 1024, 1)).is_err());
}

#[test]
fn fixed_range_excludes_guards() {
    let inner = mapped(64 * 1024);
    let inner_base = inner.base_ptr();
    let inner_size = inner.region_size();
    let g = guarded(64 * 1024);
    assert_eq!(g.base(), inner_base + page_size(4096));
    assert_eq!(g.size(), inner_size - 2 * page_size(4096));
    assert_eq!(g.page_size(), 4096);
    assert_eq!(g.inner().capacity(), 64 * 1024);
}

#[test]
fn construct_aborts_when_guard_protect_fails() {
    let page = page_size(4096);
    let mut slot = OsErrorSlot::new();
    assert!(
        GuardPage::new(mapped(64 * 1024), page, Err(EPERM), Ok(()), &mut slot).is_err(),
        "GuardPage::new must abort when a guard protect fails",
    );
    assert_eq!(mmap_last_os_error(&slot), Some(EPERM));
    mmap_clear_last_os_error(&mut slot);
    assert!(GuardPage::new(mapped(64 * 1024), page, Ok(()), Err(EPERM), &mut slot).is_err());
    assert_eq!(mmap_last_os_error(&slot), Some(EPERM));
}

#[test]
fn guards_are_closed_one_after_the_other() {
    let inner = mapped(64 * 1024);
    let page = page_size(4096);
    let closed = ProtectFlags::none();
    assert_eq!(
        GuardPage::next_call(&inner, page, None, None),
        Some(OsCall::Protect { addr: MAPPED_AT, len: page, flags: closed })
    );
    assert_eq!(
        GuardPage::next_call(&inner, page, Some(Ok(())), None),
        Some(OsCall::Protect { addr: MAPPED_AT + 60 * 1024, len: page, flags: closed })
    );
    assert_eq!(GuardPage::next_call(&inner, page, Some(Err(EPERM)), None), None);
    assert_eq!(GuardPage::next_call(&inner, page, Some(Ok(())), Some(Ok(()))), None);
    assert_eq!(GuardPage::next_call(&mapped(4096), page, None, None), None);
}

// Huge-page alignment.

#[test]
fn usable_size_forwards_with_inflated_layout() {
    let mock = RecordingBacked::new();
    let hp = HugePageAligned::with_huge_page_size(mock, 2 * 1024 * 1024).expect("valid params");
    let got = hp.usable_size(1, layout(1024, 8));
    assert_eq!(
        got,
        Some(0xC0DE),
        "usable_size must forward to the inner, not return None"
    );
    assert_eq!(
        hp.inner().last_align.get(),
        2 * 1024 * 1024,
        "inner must see the INFLATED alignment, matching allocate/deallocate",
    );
    assert_eq!(
        hp.inner().last_size.get(),
        1024,
        "size is unchanged (alignment-only inflation)",
    );
}

#[test]
fn rejects_non_power_of_two() {
    let inner = mapped(4 * 1024 * 1024);
    assert!(HugePageAligned::with_huge_page_size(inner, 3 * 1024 * 1024).is_none());
}

#[test]
fn rejects_too_small() {
    let inner = mapped(64 * 1024);
    assert!(HugePageAligned::with_huge_page_size(inner, 1024).is_none());
}

#[test]
fn default_constructs() {
    let inner = mapped(4 * 1024 * 1024);
    let hp = HugePageAligned::with_huge_page_size(inner, 2 * 1024 * 1024).expect("valid params");
    assert_eq!(hp.huge_page_size(), 2 * 1024 * 1024);
    assert_eq!(hp.min_purge_size(), 2 * 1024 * 1024);
    let arm = HugePageAligned::new(mapped(4096), Target::MacArm).expect("valid params");
    assert_eq!(arm.huge_page_size(), 32 * 1024 * 1024);
}

#[test]
fn default_huge_page_size_matches_platform() {
    assert_eq!(default_huge_page_size(Target::MacArm), 32 * 1024 * 1024);
    for target in [Target::Linux, Target::MacX86, Target::OtherUnix, Target::Windows] {
        assert_eq!(default_huge_page_size(target), 2 * 1024 * 1024);
    }
}

/// A mapping of six MiB whose base is a page past a boundary of two MiB.
fn off_boundary() -> MmapBacked {
    let mut slot = OsErrorSlot::new();
    MmapBacked::new(6 * 1024 * 1024, &platform(), Ok(MAPPED_AT + 4096), &mut slot).unwrap()
}

#[test]
fn allocate_returns_huge_page_aligned() {
    let mut mem = ByteMemory::zeroed(MAPPED_AT + 4096, 6 * 1024 * 1024);
    let mut hp =
        HugePageAligned::with_huge_page_size(off_boundary(), 2 * 1024 * 1024).expect("valid params");
    let block = hp
        .allocate(&mut mem, layout(1024, 8))
        .expect("6 MiB backing must fit a 2 MiB-aligned 1 KiB allocation");
    assert_eq!(
        block.addr % (2 * 1024 * 1024),
        0,
        "allocation not huge-page-aligned"
    );
}

#[test]
fn release_pages_below_huge_page_is_no_op() {
    let inner = mapped(4 * 1024 * 1024);
    let base = inner.base_ptr();
    let hp = HugePageAligned::with_huge_page_size(inner, 2 * 1024 * 1024).expect("valid params");
    assert_eq!(hp.release_pages(base, 4096), None);
}

#[test]
fn release_pages_aligned_huge_page_passes_through() {
    let hp_size = 2 * 1024 * 1024;
    let inner = off_boundary();
    let raw_base = inner.base_ptr();
    let aligned = (raw_base + hp_size - 1) & !(hp_size - 1);
    assert!(
        aligned + hp_size <= raw_base + 6 * 1024 * 1024,
        "6 MiB backing must contain a full aligned huge page",
    );
    let hp = HugePageAligned::with_huge_page_size(inner, hp_size).expect("valid params");
    assert_eq!(
        hp.release_pages(aligned, hp_size),
        Some(OsCall::Release { addr: aligned, len: hp_size })
    );
    assert_eq!(
        hp.release_pages(aligned - 4096, hp_size + 8192),
        Some(OsCall::Release { addr: aligned, len: hp_size })
    );
    assert_eq!(hp.release_pages(aligned + 4096, hp_size), None);
}

// Memory nodes.

#[test]
fn nodeset_single() {
    let s = NodeSet::single(3).unwrap();
    assert_eq!(s.mask(), 0b1000);
    assert_eq!(s.max_node_plus_one(), 4);
}

#[test]
fn nodeset_with() {
    let s = NodeSet::single(0).unwrap().with(2).unwrap().with(5).unwrap();
    assert_eq!(s.mask(), 0b100101);
    assert_eq!(s.max_node_plus_one(), 6);
}

#[test]
fn nodeset_rejects_overflow() {
    assert!(NodeSet::single(64).is_none());
    assert!(NodeSet::single(100).is_none());
    let s = NodeSet::empty();
    assert!(s.with(64).is_none());
}

#[test]
fn nodeset_edges() {
    let none = NodeSet::empty();
    assert!(none.is_empty());
    assert_eq!((none.max_node_plus_one(), none.mask()), (0, 0));
    let last = NodeSet::single(63).unwrap();
    assert!(!last.is_empty());
    assert_eq!(last.max_node_plus_one(), 64);
    assert_eq!(last.mbind_maxnode(), 64);
}

fn bound(policy: NumaPolicy, reply: Result<(), i32>) -> Result<NumaLocal<MmapBacked>, AllocError> {
    let mut slot = OsErrorSlot::new();
    NumaLocal::new(mapped(64 * 1024), policy, Target::Linux, reply, &mut slot)
}

#[test]
fn empty_bind_rejected() {
    assert!(bound(NumaPolicy::Bind(NodeSet::empty()), Ok(())).is_err());
}

#[test]
fn bind_to_node_zero_succeeds() {
    let s = NodeSet::single(0).unwrap();
    assert!(
        bound(NumaPolicy::Bind(s), Ok(())).is_ok(),
        "expected mbind(MPOL_BIND, [0]) to succeed on any host"
    );
}

#[test]
fn interleaved_succeeds() {
    let s = NodeSet::single(0).unwrap();
    assert!(bound(NumaPolicy::Interleaved(s), Ok(())).is_ok());
}

#[test]
fn preferred_succeeds() {
    assert!(bound(NumaPolicy::Preferred(0), Ok(())).is_ok());
}

#[test]
fn refused_bindings_keep_the_code() {
    let mut slot = OsErrorSlot::new();
    let inner = mapped(64 * 1024);
    assert!(NumaLocal::new(inner, NumaPolicy::Preferred(0), Target::Linux, Err(EPERM), &mut slot)
        .is_err());
    assert_eq!(mmap_last_os_error(&slot), Some(EPERM));
    let inner = mapped(64 * 1024);
    assert!(
        NumaLocal::new(inner, NumaPolicy::Preferred(0), Target::Windows, Err(EPERM), &mut slot)
            .is_ok(),
        "there is nothing to bind off Linux"
    );
}

#[test]
fn bindings_cover_the_whole_mapping() {
    let inner = mapped(64 * 1024);
    let policy = NumaPolicy::Preferred(2);
    assert_eq!(
        NumaLocal::bind_request(&inner, &policy, Target::Linux),
        Some(OsCall::Bind {
            addr: MAPPED_AT,
            len: 64 * 1024,
            mode: MPOL_PREFERRED,
            mask: 4,
            maxnode: 64
        })
    );
    assert_eq!(NumaLocal::bind_request(&inner, &policy, Target::MacArm), None);
}

#[test]
fn mbind_args_bind_builds_nodemask() {
    let s = NodeSet::single(0).unwrap().with(3).unwrap();
    let (mode, mask, maxnode) = mbind_args(&NumaPolicy::Bind(s)).unwrap();
    assert_eq!(mode, MPOL_BIND);
    assert_eq!(mask, 0b1001);
    assert_eq!(maxnode, 64);
}

#[test]
fn mbind_args_interleaved_builds_nodemask() {
    let s = NodeSet::single(1).unwrap();
    let (mode, mask, maxnode) = mbind_args(&NumaPolicy::Interleaved(s)).unwrap();
    assert_eq!(mode, MPOL_INTERLEAVE);
    assert_eq!(mask, 0b10);
    assert_eq!(maxnode, 64);
}

#[test]
fn mbind_args_preferred_single_node() {
    let (mode, mask, maxnode) = mbind_args(&NumaPolicy::Preferred(2)).unwrap();
    assert_eq!(mode, MPOL_PREFERRED);
    assert_eq!(mask, 0b100);
    assert_eq!(maxnode, 64);
}

#[test]
fn mbind_args_rejects_empty_and_out_of_range() {
    assert!(mbind_args(&NumaPolicy::Bind(NodeSet::empty())).is_err());
    assert!(mbind_args(&NumaPolicy::Interleaved(NodeSet::empty())).is_err());
    assert!(mbind_args(&NumaPolicy::Preferred(64)).is_err());
    assert!(mbind_args(&NumaPolicy::Preferred(9999)).is_err());
}

#[test]
fn preferred_out_of_range_node_rejected_uniformly() {
    for target in [Target::Linux, Target::MacX86, Target::Windows] {
        let mut slot = OsErrorSlot::new();
        let inner = mapped(64 * 1024);
        let res = NumaLocal::new(inner, NumaPolicy::Preferred(9999), target, Ok(()), &mut slot);
        assert!(res.is_err(), "out-of-range Preferred node must be rejected");
    }
}

#[test]
fn current_numa_node_returns_some_or_none() {
    assert_eq!(current_numa_node(Target::Linux, 0, 3), Some(3));
    assert_eq!(current_numa_node(Target::Linux, -1, 3), None);
    assert_eq!(current_numa_node(Target::Windows, 0, 3), None);
}

// Metadata apart from data.

const META_AT: usize = 0x8000_0000;

fn build_split(data_size: usize, meta_size: usize) -> SplitMetadata<MmapBacked> {
    let mut slot = OsErrorSlot::new();
    SplitMetadata::new(mapped(data_size), meta_size, &platform(), Ok(META_AT), &mut slot).unwrap()
}

#[test]
fn meta_and_data_regions_are_disjoint_virtual_addresses() {
    let sm = build_split(64 * 1024, 64 * 1024);
    let meta = sm.meta_base();
    let meta_end = meta + sm.meta_size();
    let data = sm.base_ptr();
    let data_end = data + sm.region_size();
    assert!(
        meta_end <= data || data_end <= meta,
        "regions overlap: meta=[{meta:x}, {meta_end:x}) data=[{data:x}, {data_end:x})",
    );
}

#[test]
fn forwards_allocate_to_data_region() {
    let mut mem = ByteMemory::zeroed(MAPPED_AT, 64 * 1024);
    let mut sm = build_split(64 * 1024, 16 * 1024);
    let l = layout(128, 8);
    let block = sm.allocate(&mut mem, l).unwrap();
    let data = sm.base_ptr();
    let data_end = data + sm.region_size();
    assert!(
        block.addr >= data && block.addr < data_end,
        "allocation must come from data region",
    );
    assert!(sm.deallocate(&mut mem, block.addr, l).is_ok());
}

#[test]
fn allocations_never_touch_metadata_region() {
    let mut mem = ByteMemory::zeroed(MAPPED_AT, 64 * 1024);
    let mut sm = build_split(64 * 1024, 16 * 1024);
    let meta_base = sm.meta_base();
    let meta_end = meta_base + sm.meta_size();
    for _ in 0..32 {
        let block = sm.allocate(&mut mem, layout(256, 8)).unwrap();
        let start = block.addr;
        let end = start + 256;
        assert!(
            end <= meta_base || start >= meta_end,
            "allocation crosses metadata region",
        );
    }
}

#[test]
fn meta_region_is_writable() {
    let mut mem = ByteMemory::zeroed(META_AT, 4 * 1024);
    let sm = build_split(64 * 1024, 4 * 1024);
    let base = sm.meta_base();
    fill(&mut mem, base, 4 * 1024, 0xAB);
    for i in [0, 100, 1000, 4095] {
        assert_eq!(mem.load(base + i), 0xAB);
    }
}

#[test]
fn fixed_range_reports_data_region() {
    let sm = build_split(64 * 1024, 16 * 1024);
    assert_eq!(sm.base(), sm.data().base_ptr());
    assert_eq!(sm.size(), sm.data().region_size());
    assert_eq!(sm.meta().capacity(), 16 * 1024);
}

#[test]
fn protect_only_affects_data_region() {
    let sm = build_split(64 * 1024, 4 * 1024);
    for flags in [ProtectFlags::none(), ProtectFlags::rw()] {
        match sm.protect(sm.base_ptr(), sm.region_size(), flags) {
            OsCall::Protect { addr, len, flags: f } => {
                assert_eq!((addr, len, f), (MAPPED_AT, 64 * 1024, flags));
                assert!(addr + len <= sm.meta_base() || sm.meta_base() + sm.meta_size() <= addr);
            }
            other => panic!("unexpected call {other:?}"),
        }
    }
}

#[test]
fn refused_metadata_regions_keep_the_code() {
    let mut slot = OsErrorSlot::new();
    assert!(
        SplitMetadata::new(mapped(4096), 4096, &platform(), Err(12), &mut slot).is_err()
    );
    assert_eq!(mmap_last_os_error(&slot), Some(12));
    let given = SplitMetadata::with_meta(mapped(4096), off_boundary());
    assert_eq!(given.meta_base(), MAPPED_AT + 4096);
}
