//! The laws of the library, each on concrete values.

use forge_alloc::alloc_fault_policy::{AllocFaultPolicy, AlwaysFail, FailAfter, NeverFail};
use forge_alloc::allocator::{Allocator, Block, Corruption, Deallocator, ResizeError};
use forge_alloc::backing::inline::{InlineBacked, MAX_ALIGN};
use forge_alloc::backing::mmap::MmapBacked;
use forge_alloc::backing::static_buf::StaticBacked;
use forge_alloc::bump::BumpCursor;
use forge_alloc::bump_arena::BumpArena;
use forge_alloc::fixed_range::FixedRange;
use forge_alloc::hardening::cache_jitter::CacheJitter;
use forge_alloc::hardening::canary::Canary;
use forge_alloc::hardening::faulty::Faulty;
use forge_alloc::hardening::guard_page::GuardPage;
use forge_alloc::hardening::huge_page::HugePageAligned;
use forge_alloc::hardening::poison::{PoisonOnFree, DEFAULT_POISON};
use forge_alloc::hardening::statistics::Statistics;
use forge_alloc::hardening::zeroize::ZeroizeOnFree;
use forge_alloc::memory::{fill, load_word, ByteMemory, Bytes, Memory};
use forge_alloc::os::{OsErrorSlot, Platform, Target};
use forge_alloc::std_compat::StdCompat;
use forge_alloc::testing::{
    assert_allocator_basic_round_trip, assert_allocator_respects_alignment,
    assert_combined_invariants, assert_fixed_range_invariants, judge_alignment,
    judge_block, judge_range, judge_round_trip, RangeReport, RoundTripReport, Violation,
};
use forge_alloc::{AllocError, Layout, NonZeroLayout};
use std::collections::BTreeMap;

fn layout(size: usize, align: usize) -> NonZeroLayout {
    NonZeroLayout::from_size_align(size, align).unwrap()
}

fn arena<const N: usize>() -> BumpArena<InlineBacked<N>> {
    BumpArena::new(InlineBacked::<N>::new()).unwrap()
}

fn inline_memory(len: usize) -> ByteMemory {
    ByteMemory::zeroed(MAX_ALIGN, len)
}

fn mapped(base: usize, size: usize) -> MmapBacked {
    let mut slot = OsErrorSlot::new();
    let platform = Platform::new(Target::Linux, 4096);
    MmapBacked::new(size, &platform, Ok(base), &mut slot).unwrap()
}

#[test]
fn padding_twice_is_padding_once() {
    for (size, align) in [(1, 1), (13, 8), (16, 8), (4097, 4096)] {
        let once = layout(size, align).pad_to_align();
        assert_eq!(once.pad_to_align(), once);
        assert_eq!(once.size() % align, 0);
        assert!(once.size() < size + align);
    }
}

#[test]
fn ranges_hold_their_bytes_and_nothing_past_them() {
    let mut buf = [0u8; 16];
    let s = StaticBacked::new(&mut buf, 0x1000);
    for i in 0..16 {
        assert!(s.contains(0x1000 + i));
    }
    assert!(!s.contains(0x0fff));
    assert!(!s.contains(0x1010));
    let mut empty = [0u8; 0];
    let e = StaticBacked::new(&mut empty, 0x1000);
    assert!(!e.contains(0x1000));
}

#[test]
fn ranges_may_end_with_the_address_space() {
    let mut buf = [0u8; 16];
    let base = usize::MAX - 15;
    let s = StaticBacked::new(&mut buf, base);
    assert!(s.contains(usize::MAX));
    assert!(!s.contains(0));
    assert!(!s.contains(base - 1));
    assert!(BumpArena::new(s).is_err(), "an arena needs an address past its end");
}

#[test]
fn cursors_waste_less_than_the_alignment() {
    let mut mem = ByteMemory::zeroed(100, 1000);
    let mut c = BumpCursor::new(100, 1000);
    let mut end = 100;
    for (size, align) in [(1, 1), (8, 8), (3, 64), (100, 2), (1, 128)] {
        let b = c.allocate(&mut mem, layout(size, align)).unwrap();
        assert!(end <= b.addr && b.addr < end + align);
        assert_eq!(b.addr % align, 0);
        end = b.addr + b.len;
        assert_eq!(c.used(), end - 100);
    }
    assert_eq!((c.base(), c.limit(), c.remaining()), (100, 1000, 1100 - end));
}

#[test]
fn a_rewound_cursor_serves_as_a_fresh_one() {
    let mut mem = ByteMemory::zeroed(100, 1000);
    let mut c = BumpCursor::new(100, 1000);
    let first = c.allocate(&mut mem, layout(24, 16)).unwrap();
    let _ = c.allocate(&mut mem, layout(24, 16)).unwrap();
    c.rewind();
    assert_eq!(c.used(), 0);
    assert_eq!(c.allocate(&mut mem, layout(24, 16)).unwrap(), first);
}

#[test]
fn a_reset_arena_reuses_addresses() {
    let mut mem = inline_memory(64);
    let mut a = arena::<64>();
    let first = a.allocate(&mut mem, layout(8, 8)).unwrap();
    let _ = a.allocate(&mut mem, layout(8, 8)).unwrap();
    assert!(a.reset().is_ok());
    assert_eq!(a.allocated(), 0);
    assert_eq!(a.allocate(&mut mem, layout(8, 8)).unwrap(), first);
}

#[test]
fn arenas_serve_their_whole_region() {
    let mut mem = inline_memory(64);
    let mut a = arena::<64>();
    assert_eq!((a.base(), a.size()), (MAX_ALIGN, 64));
    assert_eq!(
        a.allocate(&mut mem, layout(64, 1)).unwrap(),
        Block { addr: MAX_ALIGN, len: 64 }
    );
    assert_eq!(a.remaining(), 0);
    assert_eq!(a.backing().allocated(), 0);
    assert!(a.allocate(&mut mem, layout(1, 1)).is_err());
}

#[test]
fn arenas_need_a_region() {
    let mut empty = [0u8; 0];
    assert!(BumpArena::new(StaticBacked::new(&mut empty, 0x1000)).is_err());
}

#[test]
fn where_inline_storage_lies_does_not_matter() {
    for base in [16, 0x1000, 0x12340] {
        let mut mem = ByteMemory::zeroed(base, 128);
        let mut b = InlineBacked::<128>::placed_at(base);
        let _ = b.allocate(&mut mem, layout(3, 1)).unwrap();
        assert_eq!(b.allocate(&mut mem, layout(4, 4)).unwrap().addr, base + 4);
        assert_eq!(b.allocate(&mut mem, layout(8, 16)).unwrap().addr, base + 16);
    }
}

#[test]
fn fail_after_fails_for_good() {
    let mut p = FailAfter::new(2);
    let verdicts: Vec<bool> = (0..6).map(|_| p.should_fail(layout(8, 8))).collect();
    assert_eq!(verdicts, [false, false, true, true, true, true]);
}

#[test]
fn extreme_policies_pass_or_refuse_everything() {
    let mut mem = inline_memory(64);
    let mut bare = arena::<64>();
    let mut clear = Faulty::new(arena::<64>(), NeverFail);
    let mut blocked = Faulty::new(arena::<64>(), AlwaysFail);
    for _ in 0..10 {
        let l = layout(8, 8);
        assert_eq!(clear.allocate(&mut mem, l), bare.allocate(&mut mem, l));
        assert_eq!(blocked.allocate(&mut mem, l), Err(AllocError));
    }
    assert_eq!(blocked.inner().allocated(), 0);
}

#[test]
fn writes_inside_blocks_leave_the_guards_sound() {
    let mut mem = inline_memory(512);
    let mut c = Canary::new_with_seed(arena::<512>(), 7);
    let a = c.allocate(&mut mem, layout(24, 8)).unwrap();
    let b = c.allocate(&mut mem, layout(24, 8)).unwrap();
    fill(&mut mem, a.addr, 24, 0xFF);
    fill(&mut mem, b.addr, 24, 0xFF);
    assert_eq!(c.deallocate(&mut mem, b.addr, layout(24, 8)), Ok(()));
    assert_eq!(c.deallocate(&mut mem, a.addr, layout(24, 8)), Ok(()));
}

#[test]
fn guard_words_do_not_linger() {
    let mut mem = inline_memory(512);
    let mut c = Canary::new_with_seed(arena::<512>(), 0x0102_0304_0506_0708);
    let b = c.allocate(&mut mem, layout(24, 8)).unwrap();
    assert_eq!(load_word(&mem, b.addr - 8), 0x0102_0304_0506_0708);
    assert_eq!(c.deallocate(&mut mem, b.addr, layout(24, 8)), Ok(()));
    assert_eq!(load_word(&mem, b.addr - 8), 0);
    assert_eq!(load_word(&mem, b.addr + 24), 0);
}

#[test]
fn guards_of_other_blocks_are_left_alone() {
    let mut mem = inline_memory(512);
    let mut c = Canary::new_with_seed(arena::<512>(), 7);
    let a = c.allocate(&mut mem, layout(24, 8)).unwrap();
    let b = c.allocate(&mut mem, layout(24, 8)).unwrap();
    assert_eq!((a.addr, b.addr), (24, 64));
    fill(&mut mem, a.addr, 25, 0xFF);
    assert_eq!(
        c.deallocate(&mut mem, a.addr, layout(24, 8)),
        Err(Corruption::PostCanary)
    );
    assert_eq!(c.deallocate(&mut mem, b.addr, layout(24, 8)), Ok(()));
}

#[test]
fn displacements_stay_within_their_lines() {
    let mut mem = ByteMemory::zeroed(0x10000, 64 * 1024);
    let inner = BumpArena::new(mapped(0x10000, 64 * 1024)).unwrap();
    let mut cj = CacheJitter::with_params(inner, 64, 4, 99).unwrap();
    for _ in 0..64 {
        let before = 0x10000 + cj.inner().allocated();
        let root = (before + 63) / 64 * 64;
        let b = cj.allocate(&mut mem, layout(32, 8)).unwrap();
        assert!(root + 64 <= b.addr && b.addr <= root + 4 * 64);
        assert_eq!(b.addr % 64, 0);
    }
}

#[test]
fn jittered_blocks_come_where_the_generator_says() {
    let mut mem = ByteMemory::zeroed(0x10000, 4096);
    let inner = BumpArena::new(mapped(0x10000, 4096)).unwrap();
    let mut cj = CacheJitter::with_params(inner, 64, 8, 1).unwrap();
    let mut x: u64 = 1;
    x ^= x << 13;
    x ^= x >> 7;
    x ^= x << 17;
    let lines = ((x as u128 * 8) >> 64) as usize;
    let b = cj.allocate(&mut mem, layout(32, 8)).unwrap();
    assert_eq!(b.addr, 0x10000 + 64 + 64 * lines);
}

#[test]
fn counts_match_the_blocks_in_use() {
    let mut mem = inline_memory(512);
    let mut s = Statistics::new(arena::<512>());
    let a = s.allocate(&mut mem, layout(24, 8)).unwrap();
    let _b = s.allocate(&mut mem, layout(40, 8)).unwrap();
    assert_eq!((s.stats().current_bytes(), s.stats().live_count()), (64, 2));
    assert!(s.deallocate(&mut mem, a.addr, layout(24, 8)).is_ok());
    assert_eq!((s.stats().current_bytes(), s.stats().live_count()), (40, 1));
    assert_eq!(s.stats().peak_bytes(), 64);
}

#[test]
fn blocks_avoid_the_guard_pages() {
    let mut mem = ByteMemory::zeroed(0x10000, 16 * 1024);
    let mut slot = OsErrorSlot::new();
    let mut g =
        GuardPage::new(mapped(0x10000, 16 * 1024), 4096, Ok(()), Ok(()), &mut slot).unwrap();
    let mut issued = 0;
    while let Ok(b) = g.allocate(&mut mem, layout(1000, 8)) {
        assert!(b.addr >= 0x10000 + 4096 && b.addr + b.len <= 0x10000 + 12 * 1024);
        issued += 1;
    }
    assert_eq!(issued, 8);
}

#[test]
fn huge_page_blocks_start_on_huge_pages() {
    let mut mem = ByteMemory::zeroed(0x10000, 64 * 1024);
    let mut hp = HugePageAligned::with_huge_page_size(mapped(0x11000, 32 * 1024), 8192).unwrap();
    let a = hp.allocate(&mut mem, layout(10, 8)).unwrap();
    let b = hp.allocate(&mut mem, layout(10, 16384)).unwrap();
    assert_eq!((a.addr, b.addr), (0x12000, 0x14000));
    assert_eq!(hp.deallocate(&mut mem, a.addr, layout(10, 8)), Ok(()));
}

#[test]
fn the_inner_scrub_has_the_last_word() {
    let l = layout(8, 8);
    let mut mem = inline_memory(64);
    let mut pz = PoisonOnFree::new(ZeroizeOnFree::new(arena::<64>()));
    let b = pz.allocate(&mut mem, l).unwrap();
    fill(&mut mem, b.addr, 8, 0xAA);
    assert!(pz.deallocate(&mut mem, b.addr, l).is_ok());
    assert_eq!(mem.load(b.addr), 0);
    let mut zp = ZeroizeOnFree::new(PoisonOnFree::new(arena::<64>()));
    let b = zp.allocate(&mut mem, l).unwrap();
    assert!(zp.deallocate(&mut mem, b.addr, l).is_ok());
    assert_eq!(mem.load(b.addr), DEFAULT_POISON);
}

#[test]
fn observers_do_not_move_blocks() {
    let mut mem = inline_memory(64);
    let mut bare = arena::<64>();
    let mut seen = Statistics::new(PoisonOnFree::new(arena::<64>()));
    for (size, align) in [(3, 1), (8, 8), (40, 16), (40, 1)] {
        let l = layout(size, align);
        assert_eq!(seen.allocate(&mut mem, l), bare.allocate(&mut mem, l));
    }
    assert_eq!(seen.capacity_bytes(), Some(64));
}

#[test]
fn resizing_moves_the_bytes_that_fit() {
    let mut mem = inline_memory(256);
    let mut a = arena::<256>();
    let b = a.allocate(&mut mem, layout(8, 8)).unwrap();
    for i in 0..8 {
        mem.store(b.addr + i, i as u8 + 1);
    }
    let g = a.grow(&mut mem, b.addr, layout(8, 8), layout(32, 8)).unwrap();
    assert_eq!(g, Block { addr: MAX_ALIGN + 8, len: 32 });
    let s = a.shrink(&mut mem, g.addr, layout(32, 8), layout(4, 8)).unwrap();
    assert_eq!(s, Block { addr: MAX_ALIGN + 40, len: 4 });
    for i in 0..4 {
        assert_eq!(mem.load(s.addr + i), i as u8 + 1);
    }
    assert_eq!(
        a.grow(&mut mem, s.addr, layout(4, 8), layout(1024, 8)),
        Err(ResizeError::Alloc(AllocError))
    );
}

#[test]
fn resizing_reports_damage() {
    let mut mem = inline_memory(256);
    let mut c = Canary::new_with_seed(arena::<256>(), 7);
    let b = c.allocate(&mut mem, layout(8, 8)).unwrap();
    mem.store(b.addr + 8, 0);
    assert_eq!(
        c.grow(&mut mem, b.addr, layout(8, 8), layout(16, 8)),
        Err(ResizeError::Corrupt(Corruption::PostCanary))
    );
}

#[test]
fn requests_for_nothing_never_reach_the_allocator() {
    let mut mem = inline_memory(64);
    let mut s = StdCompat::new(arena::<64>());
    let none = Layout::from_size_align(0, 32).unwrap();
    let some = Layout::from_size_align(8, 8).unwrap();
    let more = Layout::from_size_align(16, 8).unwrap();
    assert_eq!(s.allocate(&mut mem, none), Ok(Block { addr: 32, len: 0 }));
    assert_eq!(s.deallocate(&mut mem, 32, none), Ok(()));
    assert_eq!(s.grow(&mut mem, 32, none, none), Ok(Block { addr: 32, len: 0 }));
    assert_eq!(s.inner().allocated(), 0);
    let b = s.grow(&mut mem, 32, none, some).unwrap();
    assert_eq!(b, Block { addr: MAX_ALIGN, len: 8 });
    assert_eq!(
        s.grow(&mut mem, b.addr, some, none),
        Err(ResizeError::Alloc(AllocError))
    );
    assert_eq!(
        s.shrink(&mut mem, 32, none, some),
        Err(ResizeError::Alloc(AllocError))
    );
    let g = s.grow(&mut mem, b.addr, some, more).unwrap();
    assert_eq!(g, Block { addr: MAX_ALIGN + 8, len: 16 });
    let h = s.shrink(&mut mem, g.addr, more, some).unwrap();
    assert_eq!(h.len, 8);
    assert_eq!(s.shrink(&mut mem, h.addr, some, none), Ok(Block { addr: 32, len: 0 }));
    assert_eq!(s.into_inner().allocated(), 32);
}

#[test]
fn well_behaved_allocators_pass_the_checks() {
    let mut mem = inline_memory(256);
    let mut a = arena::<256>();
    assert_eq!(assert_fixed_range_invariants(&a), Ok(()));
    assert_eq!(assert_combined_invariants(&mut a, &mut mem), Ok(()));
    assert_eq!(a.allocated(), 256);
    assert!(a.reset().is_ok());
    assert_eq!(assert_allocator_basic_round_trip(&mut a, &mut mem), Ok(()));
    assert_eq!(
        assert_allocator_basic_round_trip(&mut a, &mut mem),
        Err(Violation::Refused)
    );
    assert!(a.reset().is_ok());
    assert_eq!(assert_allocator_respects_alignment(&mut a, &mut mem), Ok(()));
    let mut wide = ByteMemory::zeroed(0x1000, 4096);
    let mut c = Canary::new_with_seed(BumpArena::new(mapped(0x1000, 4096)).unwrap(), 7);
    assert_eq!(assert_allocator_respects_alignment(&mut c, &mut wide), Ok(()));
}

#[test]
fn broken_promises_are_named() {
    let good = RangeReport {
        bases: (16, 16),
        sizes: (8, 8),
        first: true,
        last: true,
        end: false,
    };
    assert_eq!(judge_range(good), Ok(()));
    assert_eq!(
        judge_range(RangeReport { bases: (16, 17), ..good }),
        Err(Violation::BaseUnstable)
    );
    assert_eq!(
        judge_range(RangeReport { sizes: (8, 9), ..good }),
        Err(Violation::SizeUnstable)
    );
    assert_eq!(
        judge_range(RangeReport { first: false, ..good }),
        Err(Violation::FirstByteOutside)
    );
    assert_eq!(
        judge_range(RangeReport { last: false, ..good }),
        Err(Violation::LastByteOutside)
    );
    assert_eq!(
        judge_range(RangeReport { end: true, ..good }),
        Err(Violation::EndInside)
    );
    assert_eq!(
        judge_range(RangeReport { sizes: (0, 0), first: false, last: false, ..good }),
        Ok(())
    );
    assert_eq!(judge_block(true, false), Ok(()));
    assert_eq!(judge_block(false, false), Err(Violation::OutsideRange));
    assert_eq!(judge_block(true, true), Err(Violation::FarInside));
}

#[test]
fn misaligned_blocks_are_named() {
    assert_eq!(judge_alignment(96, 32), Ok(()));
    assert_eq!(judge_alignment(97, 1), Ok(()));
    assert_eq!(judge_alignment(96, 64), Err(Violation::Misaligned));
    assert_eq!(judge_alignment(511, 512), Err(Violation::Misaligned));
}

#[test]
fn adapters_are_copied_with_what_they_wrap() {
    let s = StdCompat::new(NeverFail);
    let t = s;
    let _: NeverFail = s.clone().into_inner();
    assert_eq!(format!("{t:?}"), "StdCompat { inner: NeverFail }");
}

#[test]
fn broken_round_trips_are_named() {
    let seen = RoundTripReport {
        first: Block { addr: 64, len: 64 },
        second: None,
        kept: None,
        zeroed: None,
    };
    let full = RoundTripReport {
        second: Some(Block { addr: 128, len: 64 }),
        kept: Some(true),
        zeroed: Some(true),
        ..seen
    };
    assert_eq!(judge_round_trip(seen), Ok(()));
    assert_eq!(judge_round_trip(full), Ok(()));
    assert_eq!(
        judge_round_trip(RoundTripReport { first: Block { addr: 68, len: 64 }, ..full }),
        Err(Violation::Misaligned)
    );
    assert_eq!(
        judge_round_trip(RoundTripReport { first: Block { addr: 64, len: 63 }, ..full }),
        Err(Violation::TooShort)
    );
    for (addr, apart) in [(0, true), (8, false), (64, false), (127, false), (128, true)] {
        let report = RoundTripReport { second: Some(Block { addr, len: 64 }), ..full };
        let expected = if apart { Ok(()) } else { Err(Violation::Overlap) };
        assert_eq!(judge_round_trip(report), expected, "second block at {addr}");
    }
    assert_eq!(
        judge_round_trip(RoundTripReport { kept: Some(false), ..full }),
        Err(Violation::BytesLost)
    );
    assert_eq!(
        judge_round_trip(RoundTripReport { zeroed: Some(false), ..full }),
        Err(Violation::NotZero)
    );
}

#[test]
fn round_trips_are_counted() {
    let mut mem = inline_memory(192);
    let mut s = Statistics::new(InlineBacked::<192>::new());
    assert_eq!(assert_allocator_basic_round_trip(&mut s, &mut mem), Ok(()));
    assert_eq!(*s.stats().total_allocations, 3);
    assert_eq!(*s.stats().total_deallocations, 3);
    assert_eq!(*s.stats().failures, 0);
    assert_eq!(s.stats().live_count(), 0);
    assert_eq!(s.stats().current_bytes(), 0);
    assert_eq!(s.stats().peak_bytes(), 192);
    assert_eq!(mem.load(MAX_ALIGN), 0xCC);
    assert_eq!(mem.load(MAX_ALIGN + 63), 0xCC ^ 63);
    assert_eq!(mem.load(MAX_ALIGN + 128), 0);

    let mut short = Statistics::new(InlineBacked::<128>::new());
    assert_eq!(
        assert_allocator_basic_round_trip(&mut short, &mut mem),
        Err(Violation::Refused)
    );
    assert_eq!(*short.stats().total_allocations, 2);
    assert_eq!(*short.stats().total_deallocations, 0);
    assert_eq!(*short.stats().failures, 1);
}

/// Memory that is accessible everywhere and zero where nothing was written.
struct Sparse(BTreeMap<usize, u8>);

impl Memory for Sparse {
    fn view(&self) -> Bytes {
        unreachable!()
    }

    fn load(&self, addr: usize) -> u8 {
        self.0.get(&addr).copied().unwrap_or(0)
    }

    fn store(&mut self, addr: usize, b: u8) {
        self.0.insert(addr, b);
    }
}

#[test]
fn ranges_that_reach_too_far_are_reported() {
    let mut mem = Sparse(BTreeMap::new());
    let mut huge = mapped(0x1000, 2 << 40);
    assert_eq!(
        assert_combined_invariants(&mut huge, &mut mem),
        Err(Violation::FarInside)
    );
    assert_eq!(huge.allocated(), 64);
    let mut fine = mapped(0x1000, 4096);
    assert_eq!(assert_combined_invariants(&mut fine, &mut mem), Ok(()));
    assert_eq!(fine.allocated(), 256);
}

#[test]
fn inline_storage_starts_over_after_a_reset() {
    let mut mem = inline_memory(64);
    let mut b = InlineBacked::<64>::new();
    let l = layout(32, 8);
    b.allocate(&mut mem, l).unwrap();
    assert_eq!(b.remaining(), 32);
    b.reset();
    assert_eq!(b.allocated(), 0);
    assert_eq!(b.remaining(), 64);
    let at = b.base();
    assert_eq!(b.allocate(&mut mem, l), Ok(Block { addr: at, len: 32 }));
}
