//! Where blocks come from: inline storage, heap blocks, borrowed buffers and mappings.

use forge_alloc::allocator::{Allocator, Deallocator};
use forge_alloc::backing::heap::{HeapBytes, HeapRequest};
use forge_alloc::backing::huge_page_backed::{
    default_huge_page_size, rounding_granularity, HugePageBacked,
};
use forge_alloc::backing::inline::{InlineBacked, MAX_ALIGN};
use forge_alloc::backing::locked_mmap::LockedMmapBacked;
use forge_alloc::backing::mmap::{MmapBacked, MmapFlags};
use forge_alloc::backing::static_buf::StaticBacked;
use forge_alloc::bump_arena::BumpArena;
use forge_alloc::fixed_range::FixedRange;
use forge_alloc::memory::{fill, ByteMemory, Memory};
use forge_alloc::os::{
    capture_synthetic_einval, encode_huge_size_linux, hide_advice, log2, mmap_clear_last_os_error,
    mmap_last_os_error, mmap_record_os_error, os_map, os_map_huge, page_size, release_advice,
    unix_prot_from_flags, win32_prot_from_flags, OsCall, OsErrorSlot, Platform, Target,
};
use forge_alloc::os_backed::{OsBacked, ProtectFlags};
use forge_alloc::{AllocError, NonZeroLayout};

const ENOMEM: i32 = 12;
const FAR_OUTSIDE: usize = 1 << 20;
const MAPPED_AT: usize = 0x4000_0000;

fn layout(size: usize, align: usize) -> NonZeroLayout {
    NonZeroLayout::from_size_align(size, align).unwrap()
}

fn platform() -> Platform {
    Platform::new(Target::Linux, page_size(4096))
}

/// A mapping that the system has placed at `MAPPED_AT`.
fn mapped(size: usize) -> MmapBacked {
    let mut slot = OsErrorSlot::new();
    MmapBacked::new(size, &platform(), Ok(MAPPED_AT), &mut slot).unwrap()
}

/// A locked mapping that the system has placed at `MAPPED_AT`.
fn locked(size: usize) -> LockedMmapBacked {
    let mut slot = OsErrorSlot::new();
    LockedMmapBacked::new(size, &platform(), Ok(MAPPED_AT), Ok(()), Ok(()), &mut slot).unwrap()
}

// Inline storage.

#[test]
fn alloc_then_remaining_decreases() {
    let mut mem = ByteMemory::zeroed(MAX_ALIGN, 1024);
    let mut b = InlineBacked::<1024>::new();
    assert_eq!(b.remaining(), 1024);
    let _ = b.allocate(&mut mem, layout(64, 8)).unwrap();
    assert_eq!(b.remaining(), 1024 - 64);
}

#[test]
fn inline_alloc_returns_aligned_pointer() {
    let mut mem = ByteMemory::zeroed(MAX_ALIGN, 256);
    let mut b = InlineBacked::<256>::new();
    let _ = b.allocate(&mut mem, layout(1, 1)).unwrap();
    let block = b.allocate(&mut mem, layout(8, 16)).unwrap();
    assert_eq!(block.addr % 16, 0, "returned ptr must be 16-aligned");
    assert_eq!(block.addr, MAX_ALIGN + 16);
}

#[test]
fn inline_alloc_fails_when_exhausted() {
    let mut mem = ByteMemory::zeroed(MAX_ALIGN, 64);
    let mut b = InlineBacked::<64>::new();
    let _ = b.allocate(&mut mem, layout(64, 1)).unwrap();
    assert!(b.allocate(&mut mem, layout(1, 1)).is_err());
}

#[test]
fn alloc_fails_when_align_too_high() {
    let mut mem = ByteMemory::zeroed(MAX_ALIGN, 256);
    let mut b = InlineBacked::<256>::new();
    assert!(b.allocate(&mut mem, layout(8, 32)).is_err());
    assert_eq!(b.allocated(), 0);
}

#[test]
fn reset_reclaims_everything() {
    let mut mem = ByteMemory::zeroed(MAX_ALIGN, 64);
    let mut b = InlineBacked::<64>::new();
    let l = layout(32, 8);
    let _ = b.allocate(&mut mem, l).unwrap();
    assert_eq!(b.remaining(), 32);
    b.reset();
    assert_eq!(b.remaining(), 64);
    let _ = b.allocate(&mut mem, l).unwrap();
}

#[test]
fn deallocate_is_no_op() {
    let mut mem = ByteMemory::zeroed(MAX_ALIGN, 64);
    let mut b = InlineBacked::<64>::new();
    let l = layout(32, 8);
    let block = b.allocate(&mut mem, l).unwrap();
    let used_before = b.allocated();
    assert!(b.deallocate(&mut mem, block.addr, l).is_ok());
    assert_eq!(b.allocated(), used_before);
}

#[test]
fn fixed_range_contains_returned_pointers() {
    let mut mem = ByteMemory::zeroed(MAX_ALIGN, 128);
    let mut b = InlineBacked::<128>::new();
    let block = b.allocate(&mut mem, layout(32, 8)).unwrap();
    assert!(b.contains(block.addr));
    assert!(!b.contains(b.base().wrapping_add(FAR_OUTSIDE)));
}

#[test]
fn capacity_bytes_reports_n() {
    let b = InlineBacked::<2048>::new();
    assert_eq!(b.capacity_bytes(), Some(2048));
}

#[test]
fn base_tracks_storage_after_return_by_value() {
    let mut b = InlineBacked::<64>::placed_at(0x1000);
    assert_eq!(b.base(), 0x1000, "base() must track the storage in the callee");
    b.moved_to(0x2000);
    assert_eq!(b.base(), 0x2000, "base() must track the storage after a move");
}

#[test]
fn allocate_after_return_by_value_stays_inside_range() {
    let mut mem = ByteMemory::zeroed(0x2000, 128);
    let mut b = InlineBacked::<128>::placed_at(0x1000);
    b.moved_to(0x2000);
    let block = b.allocate(&mut mem, layout(32, 8)).unwrap();
    assert!(
        b.contains(block.addr),
        "allocation issued AFTER move must be inside base()..base()+size()",
    );
    assert!(block.addr >= b.base() && block.addr < b.base() + b.size());
}

#[test]
fn a_move_keeps_what_is_issued() {
    let mut mem = ByteMemory::zeroed(0x1000, 64);
    let mut b = InlineBacked::<64>::placed_at(0x1000);
    let _ = b.allocate(&mut mem, layout(24, 8)).unwrap();
    b.moved_to(0x2000);
    assert_eq!(b.allocated(), 24);
    let mut there = ByteMemory::zeroed(0x2000, 64);
    assert_eq!(b.allocate(&mut there, layout(8, 8)).unwrap().addr, 0x2018);
}

#[test]
fn max_align_matches_struct_alignment() {
    assert_eq!(
        core::mem::align_of::<InlineBacked<64>>(),
        MAX_ALIGN,
        "MAX_ALIGN must match the alignment of the struct",
    );
}

#[test]
fn zero_capacity_rejects_all_allocations() {
    let mut mem = ByteMemory::zeroed(MAX_ALIGN, 0);
    let mut b = InlineBacked::<0>::new();
    assert_eq!(b.capacity(), 0);
    assert_eq!(b.remaining(), 0);
    assert!(b.allocate(&mut mem, layout(1, 1)).is_err());
}

#[test]
fn inline_backed_is_send() {
    fn assert_send<T: Send>(_: &T) {}
    let b = InlineBacked::<64>::new();
    assert_send(&b);
}

#[test]
fn inline_storage_cannot_be_reset_through_the_trait() {
    let mut b = InlineBacked::<64>::new();
    assert_eq!(Allocator::reset(&mut b), Err(AllocError));
}

// Heap blocks.

/// Answers a request as the heap does: with a block that is aligned as asked, and zero where
/// that is asked for. Other blocks hold what was there before.
fn heap_answer(request: HeapRequest) -> (Result<usize, AllocError>, ByteMemory) {
    let at = 0x1000;
    assert_eq!(at % request.layout.align(), 0);
    let size = request.layout.size();
    let mut mem = ByteMemory::zeroed(at, size);
    if !request.zeroed {
        fill(&mut mem, at, size, 0xAA);
    }
    (Ok(at), mem)
}

#[test]
fn new_zero_size_errors() {
    assert!(HeapBytes::new(0, Ok(0x1000)).is_err());
    assert!(HeapBytes::new_request(0).is_err());
}

#[test]
fn with_align_zero_errors() {
    assert!(HeapBytes::with_align(64, 0, Ok(0x1000)).is_err());
}

#[test]
fn with_align_non_power_of_two_errors() {
    for bad in [3_usize, 5, 6, 12, 24] {
        assert!(
            HeapBytes::with_align(64, bad, Ok(0x1000)).is_err(),
            "align={bad} should be rejected",
        );
    }
}

#[test]
fn with_align_power_of_two_succeeds() {
    for align in [1_usize, 2, 4, 8, 16, 32, 64, 128, 256, 512, 1024] {
        assert!(
            HeapBytes::with_align(1024, align, Ok(0x1000)).is_ok(),
            "align={align} should succeed",
        );
    }
}

#[test]
fn capacity_matches_requested_size() {
    assert_eq!(HeapBytes::new(1024, Ok(0x1000)).unwrap().capacity(), 1024);
    assert_eq!(HeapBytes::with_align(2048, 64, Ok(0x1000)).unwrap().capacity(), 2048);
}

#[test]
fn heap_base_is_stable_across_observations() {
    let h = HeapBytes::new(1024, Ok(0x1000)).unwrap();
    let a = h.base();
    let b = h.base();
    assert_eq!(a, b, "base() must report the same address every call");
    assert_eq!(a, 0x1000);
}

#[test]
fn fixed_range_size_matches_capacity() {
    let h = HeapBytes::new(1024, Ok(0x1000)).unwrap();
    assert_eq!(h.size(), h.capacity());
}

#[test]
fn bump_arena_over_heap_bytes_round_trips() {
    let mut mem = ByteMemory::zeroed(0x1000, 1024);
    let mut bump = BumpArena::new(HeapBytes::new(1024, Ok(0x1000)).unwrap()).unwrap();
    let l = layout(64, 8);
    let a = bump.allocate(&mut mem, l).unwrap();
    let b = bump.allocate(&mut mem, l).unwrap();
    assert_ne!(a.addr, b.addr, "two allocates must return distinct pointers");
    let base = bump.base();
    let size = bump.size();
    for p in [a, b] {
        assert!(
            p.addr >= base && p.addr + 64 <= base + size,
            "allocation at {:#x} must lie in region [{base:#x}, {:#x})",
            p.addr,
            base + size,
        );
    }
}

#[test]
fn new_zeroed_returns_zeroed_block() {
    for size in [1_usize, 16, 64, 1024, 64 * 1024, 1024 * 1024] {
        let request = HeapBytes::new_zeroed_request(size).unwrap();
        assert_eq!(request, HeapRequest { layout: layout(size, MAX_ALIGN), zeroed: true });
        let (reply, mem) = heap_answer(request);
        let h = HeapBytes::new_zeroed(size, reply, &mem).unwrap();
        let base = h.base();
        assert_eq!(h.size(), size);
        assert_eq!(base % 16, 0);
        for i in 0..size {
            assert_eq!(mem.load(base + i), 0, "size={size}, byte {i} must be zero");
        }
    }
}

#[test]
fn new_zeroed_zero_size_errors() {
    let mem = ByteMemory::zeroed(0x1000, 0);
    assert!(HeapBytes::new_zeroed_request(0).is_err());
    assert!(HeapBytes::new_zeroed(0, Ok(0x1000), &mem).is_err());
}

#[test]
fn with_align_zeroed_validates_args_same_as_with_align() {
    let none = ByteMemory::zeroed(0x1000, 0);
    assert!(HeapBytes::with_align_zeroed(64, 0, Ok(0x1000), &none).is_err());
    for bad in [3_usize, 5, 6, 12, 24] {
        assert!(HeapBytes::with_align_zeroed_request(64, bad).is_err());
        assert!(HeapBytes::with_align_zeroed(64, bad, Ok(0x1000), &none).is_err());
    }
    for align in [1_usize, 2, 4, 8, 16, 32, 64, 128, 256] {
        let request = HeapBytes::with_align_zeroed_request(1024, align).unwrap();
        let (reply, mem) = heap_answer(request);
        let h = HeapBytes::with_align_zeroed(1024, align, reply, &mem).unwrap();
        assert_eq!(h.capacity(), 1024);
        assert_eq!(mem.load(h.base()), 0);
        assert_eq!(mem.load(h.base() + 1023), 0);
    }
}

#[test]
fn heap_blocks_are_asked_for_and_given_back_by_layout() {
    let request = HeapBytes::with_align_request(100, 32).unwrap();
    assert_eq!(request, HeapRequest { layout: layout(100, 32), zeroed: false });
    let (reply, mem) = heap_answer(request);
    let h = HeapBytes::with_align(100, 32, reply).unwrap();
    assert_eq!(mem.load(h.base()), 0xAA);
    assert_eq!(h.release_request(), (0x1000, layout(100, 32)));
    assert!(HeapBytes::with_align(100, 32, Err(AllocError)).is_err());
    let plain = HeapBytes::new_request(100).unwrap();
    assert_eq!(plain, HeapRequest { layout: layout(100, MAX_ALIGN), zeroed: false });
}

// Borrowed buffers.

#[test]
fn new_records_buffer_size() {
    let mut buf = [0u8; 1024];
    let s = StaticBacked::new(&mut buf, 0x1000);
    assert_eq!(s.capacity(), 1024);
    assert_eq!(s.size(), 1024);
}

#[test]
fn new_accepts_empty_slice() {
    let mut buf = [0u8; 0];
    let s = StaticBacked::new(&mut buf, 1);
    assert_eq!(s.capacity(), 0);
    assert_eq!(s.size(), 0);
    assert!(!s.contains(s.base()));
}

#[test]
fn static_buf_base_is_stable_across_observations() {
    let mut buf = [0u8; 1024];
    let addr = buf.as_ptr() as usize;
    let s = StaticBacked::new(&mut buf, addr);
    let a = s.base();
    let b = s.base();
    assert_eq!(a, b, "base() must report the same address every call");
}

#[test]
fn base_points_into_borrowed_buffer() {
    let mut buf = [0u8; 1024];
    let expected = buf.as_ptr() as usize;
    let s = StaticBacked::new(&mut buf, expected);
    assert_eq!(
        s.base(),
        expected,
        "base() must equal the borrowed slice's data pointer",
    );
}

#[test]
fn fixed_range_contains_addresses_inside_buffer() {
    let mut buf = [0u8; 256];
    let addr = buf.as_ptr() as usize;
    let s = StaticBacked::new(&mut buf, addr);
    let base = s.base();
    assert!(s.contains(base));
    assert!(s.contains(base + 255));
    assert!(!s.contains(base + 256));
}

#[test]
fn bump_arena_over_static_backed_round_trips() {
    let mut buf = [0u8; 1024];
    let buf_base = buf.as_ptr() as usize;
    let mut mem = ByteMemory::zeroed(buf_base, 1024);
    let mut bump = BumpArena::new(StaticBacked::new(&mut buf, buf_base)).unwrap();
    let l = layout(64, 8);
    let a = bump.allocate(&mut mem, l).unwrap();
    let b = bump.allocate(&mut mem, l).unwrap();
    assert_ne!(a.addr, b.addr, "two allocates must return distinct pointers");
    for p in [a, b] {
        assert!(
            p.addr >= buf_base && p.addr + 64 <= buf_base + 1024,
            "allocation at {:#x} must lie in buffer [{buf_base:#x}, {:#x})",
            p.addr,
            buf_base + 1024,
        );
    }
}

#[test]
fn buffer_can_be_reborrowed_after_drop() {
    let mut buf = [0u8; 64];
    {
        let s = StaticBacked::new(&mut buf, 0x1000);
        assert_eq!(s.size(), 64);
    }
    let s2 = StaticBacked::new(&mut buf, 0x1000);
    assert_eq!(s2.size(), 64);
}

#[test]
fn static_backed_is_send() {
    fn assert_send<T: Send>(_: &T) {}
    let mut buf = [0u8; 64];
    let s = StaticBacked::new(&mut buf, 0x1000);
    assert_send(&s);
}

#[test]
fn static_backed_is_sync() {
    fn assert_sync<T: Sync>(_: &T) {}
    let mut buf = [0u8; 64];
    let s = StaticBacked::new(&mut buf, 0x1000);
    assert_sync(&s);
}

#[test]
fn base_stable_across_wrapper_move() {
    let mut buf = [0u8; 64];
    let expected = buf.as_ptr() as usize;
    let s1 = StaticBacked::new(&mut buf, expected);
    let before = s1.base();
    let s2 = s1;
    let after = s2.base();
    assert_eq!(before, expected);
    assert_eq!(after, expected, "base() must not change when the wrapper moves");
}

// Mappings.

#[test]
fn page_size_is_reasonable() {
    for reported in [-1, 0, 4096, 16384] {
        let p = page_size(reported);
        assert!(p >= 4096, "page size suspiciously small: {p}");
        assert!(p.is_power_of_two());
    }
    assert_eq!(page_size(-1), 4096);
    assert_eq!(page_size(16384), 16384);
}

#[test]
fn alloc_then_write_then_read_back() {
    let mut mem = ByteMemory::zeroed(MAPPED_AT, 16 * 1024);
    let mut m = mapped(16 * 1024);
    let block = m.allocate(&mut mem, layout(256, 8)).unwrap();
    fill(&mut mem, block.addr, 256, 0xCD);
    for i in 0..256 {
        assert_eq!(mem.load(block.addr + i), 0xCD);
    }
}

#[test]
fn mmap_alloc_returns_aligned_pointer() {
    let mut mem = ByteMemory::zeroed(MAPPED_AT, 64 * 1024);
    let mut m = mapped(64 * 1024);
    let _ = m.allocate(&mut mem, layout(3, 1)).unwrap();
    let block = m.allocate(&mut mem, layout(64, 64)).unwrap();
    assert_eq!(block.addr % 64, 0);
    assert_eq!(m.allocated(), 128);
    assert_eq!(m.remaining(), 64 * 1024 - 128);
}

#[test]
fn mmap_alloc_fails_when_exhausted() {
    let mut mem = ByteMemory::zeroed(MAPPED_AT, 8 * 1024);
    let mut m = mapped(8 * 1024);
    let cap = m.capacity();
    let _ = m.allocate(&mut mem, layout(cap, 8)).unwrap();
    assert!(m.allocate(&mut mem, layout(1, 1)).is_err());
}

#[test]
fn fixed_range_contains_allocations() {
    let mut mem = ByteMemory::zeroed(MAPPED_AT, 8 * 1024);
    let mut m = mapped(8 * 1024);
    let block = m.allocate(&mut mem, layout(64, 8)).unwrap();
    assert!(m.contains(block.addr));
}

#[test]
fn capacity_is_page_rounded() {
    let m = mapped(1);
    let cap = m.capacity();
    let page = page_size(4096);
    assert_eq!(cap % page, 0);
    assert!(cap >= page);
    assert_eq!(cap, 4096);
}

#[test]
fn zero_size_request_errors() {
    let mut slot = OsErrorSlot::new();
    assert!(MmapBacked::new(0, &platform(), Ok(MAPPED_AT), &mut slot).is_err());
    assert!(MmapBacked::map_request(0, MmapFlags::none(), &platform()).is_err());
}

#[test]
fn pre_syscall_rejection_sets_synthetic_einval() {
    let mut slot = OsErrorSlot::new();
    mmap_clear_last_os_error(&mut slot);
    assert!(MmapBacked::new(0, &platform(), Ok(MAPPED_AT), &mut slot).is_err());
    assert_eq!(mmap_last_os_error(&slot), Some(libc::EINVAL));

    mmap_clear_last_os_error(&mut slot);
    assert!(MmapBacked::new(usize::MAX, &platform(), Err(ENOMEM), &mut slot).is_err());
    assert_eq!(mmap_last_os_error(&slot), Some(libc::EINVAL));

    let windows = Platform::new(Target::Windows, 4096);
    mmap_clear_last_os_error(&mut slot);
    assert!(MmapBacked::new(0, &windows, Ok(MAPPED_AT), &mut slot).is_err());
    assert_eq!(
        mmap_last_os_error(&slot),
        Some(windows_sys::Win32::Foundation::ERROR_INVALID_PARAMETER as i32),
    );
}

#[test]
fn last_os_error_captured_on_failure() {
    let mut slot = OsErrorSlot::new();
    mmap_clear_last_os_error(&mut slot);
    assert!(mmap_last_os_error(&slot).is_none());
    let huge = usize::MAX / 2;
    assert!(MmapBacked::new(huge, &platform(), Err(ENOMEM), &mut slot).is_err());
    assert_eq!(
        mmap_last_os_error(&slot),
        Some(ENOMEM),
        "expected captured OS error after impossibly large mmap request",
    );
}

#[test]
fn os_backed_release_pages_after_alloc() {
    let page = page_size(4096);
    let mut mem = ByteMemory::zeroed(MAPPED_AT, 64 * 1024);
    let m = mapped(64 * 1024);
    let p = m.base_ptr();
    fill(&mut mem, p, page, 0xEE);
    assert_eq!(m.release_pages(p, page), Some(OsCall::Release { addr: p, len: page }));
    fill(&mut mem, p, page, 0x11);
    assert_eq!(mem.load(p), 0x11);
}

#[test]
fn mappings_are_asked_for_in_whole_pages() {
    assert_eq!(
        MmapBacked::map_request(5000, MmapFlags::none(), &platform()),
        Ok(OsCall::MapPages { len: 8192, populate: false })
    );
    let mut flags = MmapFlags::default();
    flags.populate = true;
    assert_eq!(
        MmapBacked::map_request(1, flags, &platform()),
        Ok(OsCall::MapPages { len: 4096, populate: true })
    );
    let mac = Platform::new(Target::MacArm, 16384);
    assert_eq!(
        MmapBacked::map_request(1, flags, &mac),
        Ok(OsCall::MapPages { len: 16384, populate: false })
    );
    assert!(MmapFlags::populate_supported(Target::Linux));
    assert!(!MmapFlags::populate_supported(Target::Windows));
}

#[test]
fn mappings_are_given_back_whole() {
    let m = mapped(5000);
    assert_eq!(m.unmap_request(), OsCall::Unmap { addr: MAPPED_AT, len: 8192 });
    assert_eq!(
        m.protect(MAPPED_AT, 4096, ProtectFlags::read()),
        OsCall::Protect { addr: MAPPED_AT, len: 4096, flags: ProtectFlags::read() }
    );
    let mut slot = OsErrorSlot::new();
    let h = MmapBacked::with_huge_pages(5000, &platform(), Ok(MAPPED_AT), &mut slot).unwrap();
    assert_eq!(h.capacity(), 8192);
}

#[test]
fn a_reported_error_replaces_the_last_one() {
    let mut slot = OsErrorSlot::new();
    mmap_record_os_error(&mut slot, Some(5));
    mmap_record_os_error(&mut slot, Some(7));
    assert_eq!(mmap_last_os_error(&slot), Some(7));
    capture_synthetic_einval(&mut slot, Target::OtherUnix);
    assert_eq!(mmap_last_os_error(&slot), Some(libc::EINVAL));
    mmap_clear_last_os_error(&mut slot);
    assert_eq!(mmap_last_os_error(&slot), None);
}

fn protection(read: bool, write: bool, execute: bool) -> ProtectFlags {
    let mut flags = ProtectFlags::none();
    flags.read = read;
    flags.write = write;
    flags.execute = execute;
    flags
}

#[test]
fn unix_prot_from_flags_preserves_every_requested_bit() {
    let none = protection(false, false, false);
    let r = protection(true, false, false);
    let w = protection(false, true, false);
    let x = protection(false, false, true);
    let rw = protection(true, true, false);
    let rx = protection(true, false, true);
    let wx = protection(false, true, true);
    let rwx = protection(true, true, true);

    assert_eq!(unix_prot_from_flags(none), libc::PROT_NONE);
    assert_eq!(unix_prot_from_flags(r), libc::PROT_READ);
    assert_eq!(unix_prot_from_flags(w), libc::PROT_WRITE);
    assert_eq!(unix_prot_from_flags(x), libc::PROT_EXEC);
    assert_eq!(unix_prot_from_flags(rw), libc::PROT_READ | libc::PROT_WRITE);
    assert_eq!(unix_prot_from_flags(rx), libc::PROT_READ | libc::PROT_EXEC);
    assert_eq!(unix_prot_from_flags(wx), libc::PROT_WRITE | libc::PROT_EXEC);
    assert_eq!(
        unix_prot_from_flags(rwx),
        libc::PROT_READ | libc::PROT_WRITE | libc::PROT_EXEC,
    );
}

#[test]
fn win32_prot_from_flags_preserves_every_requested_bit() {
    let none = protection(false, false, false);
    let r = protection(true, false, false);
    let w = protection(false, true, false);
    let x = protection(false, false, true);
    let rw = protection(true, true, false);
    let rx = protection(true, false, true);
    let wx = protection(false, true, true);
    let rwx = protection(true, true, true);

    assert_eq!(
        win32_prot_from_flags(none),
        windows_sys::Win32::System::Memory::PAGE_NOACCESS
    );
    assert_eq!(
        win32_prot_from_flags(r),
        windows_sys::Win32::System::Memory::PAGE_READONLY
    );
    assert_eq!(
        win32_prot_from_flags(rw),
        windows_sys::Win32::System::Memory::PAGE_READWRITE
    );
    assert_eq!(
        win32_prot_from_flags(rx),
        windows_sys::Win32::System::Memory::PAGE_EXECUTE_READ
    );
    assert_eq!(
        win32_prot_from_flags(rwx),
        windows_sys::Win32::System::Memory::PAGE_EXECUTE_READWRITE
    );
    assert_eq!(
        win32_prot_from_flags(x),
        windows_sys::Win32::System::Memory::PAGE_EXECUTE
    );
    assert_eq!(
        win32_prot_from_flags(w),
        windows_sys::Win32::System::Memory::PAGE_READWRITE,
        "W upgrades to RW (Windows has no write-only primitive)",
    );
    assert_eq!(
        win32_prot_from_flags(wx),
        windows_sys::Win32::System::Memory::PAGE_EXECUTE_READWRITE,
        "W+X must upgrade to RWX, not collapse to PAGE_READWRITE",
    );
}

#[test]
fn protections_have_names() {
    assert_eq!(ProtectFlags::rw(), protection(true, true, false));
    assert_eq!(ProtectFlags::read(), protection(true, false, false));
    assert_eq!(ProtectFlags::rx(), protection(true, false, true));
}

#[test]
fn mapping_arguments_match_the_system_constants() {
    let plain = os_map(8192, false);
    assert_eq!(plain.len, 8192);
    assert_eq!(plain.prot, libc::PROT_READ | libc::PROT_WRITE);
    assert_eq!(plain.flags, libc::MAP_PRIVATE | libc::MAP_ANONYMOUS);
    let eager = os_map(8192, true);
    assert_eq!(
        eager.flags,
        libc::MAP_PRIVATE | libc::MAP_ANONYMOUS | libc::MAP_POPULATE
    );
    let huge = os_map_huge(1 << 21, 1 << 21);
    assert_eq!(
        huge.flags,
        libc::MAP_PRIVATE | libc::MAP_ANONYMOUS | libc::MAP_HUGETLB | libc::MAP_HUGE_2MB
    );
    assert_eq!(release_advice(), libc::MADV_DONTNEED);
    assert_eq!(hide_advice(), libc::MADV_DONTDUMP);
}

// Huge pages.

#[test]
fn default_huge_page_size_is_sane() {
    let s = default_huge_page_size();
    assert!(s.is_power_of_two());
    assert_eq!(s, 2 * 1024 * 1024, "default is 2 MiB");
}

#[test]
fn rounding_granularity_is_pow2_and_at_least_hp_size() {
    for target in [
        Target::Linux,
        Target::MacX86,
        Target::MacArm,
        Target::OtherUnix,
        Target::Windows,
    ] {
        for hp in [4096_usize, 1 << 20, 1 << 21, 1 << 30] {
            let g = rounding_granularity(target, hp);
            assert!(
                g.is_power_of_two(),
                "granularity {g} for hp_size={hp} not pow2"
            );
            assert!(g >= hp, "granularity {g} below hp_size={hp}");
            if target == Target::MacX86 {
                assert!(
                    g >= 2 * 1024 * 1024,
                    "macOS x86_64 must round to >= 2 MiB superpage (hp_size={hp}, g={g})",
                );
            } else {
                assert_eq!(g, hp);
            }
        }
    }
}

#[test]
fn rejects_zero_min_size() {
    let mut slot = OsErrorSlot::new();
    mmap_clear_last_os_error(&mut slot);
    assert!(HugePageBacked::new(Target::Linux, 0, Ok(1 << 21), &mut slot).is_err());
    assert!(mmap_last_os_error(&slot).is_some());
}

#[test]
fn rejects_bad_huge_page_size() {
    let mut slot = OsErrorSlot::new();
    for bad in [3 * 1024 * 1024_usize, 2048, 512, 0] {
        mmap_clear_last_os_error(&mut slot);
        assert!(
            HugePageBacked::with_huge_page_size(
                Target::Linux,
                1 << 21,
                bad,
                Ok(1 << 21),
                &mut slot
            )
            .is_err(),
            "hp_size={bad} should be rejected",
        );
        assert!(
            mmap_last_os_error(&slot).is_some(),
            "synthetic EINVAL must be captured for hp_size={bad}",
        );
    }
}

#[test]
fn aarch64_macos_always_errors_with_einval() {
    let mut slot = OsErrorSlot::new();
    mmap_clear_last_os_error(&mut slot);
    assert!(
        HugePageBacked::new(Target::MacArm, 2 * 1024 * 1024, Ok(1 << 21), &mut slot).is_err()
    );
    assert_eq!(mmap_last_os_error(&slot), Some(libc::EINVAL));
    assert_eq!(HugePageBacked::map_request(Target::MacArm, 1 << 21, 1 << 21), None);
}

#[test]
fn linux_huge_size_encoding_matches_libc_constants() {
    assert_eq!(
        encode_huge_size_linux(2 * 1024 * 1024),
        libc::MAP_HUGE_2MB,
        "2 MiB encoding mismatch",
    );
    assert_eq!(
        encode_huge_size_linux(1024 * 1024 * 1024),
        libc::MAP_HUGE_1GB,
        "1 GiB encoding mismatch",
    );
    let sixteen_gib = 16_usize * 1024 * 1024 * 1024;
    let encoded = encode_huge_size_linux(sixteen_gib);
    assert_eq!(encoded, libc::MAP_HUGE_16GB, "16 GiB encoding mismatch");
    assert_eq!(log2(1 << 21), 21);
    assert_eq!(log2(1), 0);
}

#[test]
fn capacity_is_huge_page_rounded() {
    let mut slot = OsErrorSlot::new();
    let m = HugePageBacked::new(Target::Linux, (1 << 21) + 1, Ok(1 << 30), &mut slot).unwrap();
    assert_eq!(m.huge_page_size(), 1 << 21);
    assert_eq!(m.capacity(), 2 << 21);
    assert_eq!(
        HugePageBacked::map_request(Target::Linux, (1 << 21) + 1, 1 << 21),
        Some(OsCall::MapHuge { len: 2 << 21, huge_page_size: 1 << 21 })
    );
    assert_eq!(m.unmap_request(), OsCall::Unmap { addr: 1 << 30, len: 2 << 21 });
}

#[test]
fn huge_mappings_serve_blocks() {
    let mut slot = OsErrorSlot::new();
    let base = 1 << 30;
    let mut mem = ByteMemory::zeroed(base, 1 << 21);
    let mut m = HugePageBacked::new(Target::Linux, 1, Ok(base), &mut slot).unwrap();
    let block = m.allocate(&mut mem, layout(256, 8)).unwrap();
    fill(&mut mem, block.addr, 256, 0xAB);
    for i in 0..256 {
        assert_eq!(mem.load(block.addr + i), 0xAB);
    }
    assert!(m.contains(block.addr));
    assert_eq!(m.base() % m.huge_page_size(), 0);
    assert!(m.deallocate(&mut mem, block.addr, layout(256, 8)).is_ok());
    assert_eq!(m.allocated(), 256);
    assert_eq!(m.remaining(), (1 << 21) - 256);
}

#[test]
fn refused_huge_mappings_keep_the_code() {
    let mut slot = OsErrorSlot::new();
    assert!(HugePageBacked::new(Target::Linux, 1, Err(ENOMEM), &mut slot).is_err());
    assert_eq!(mmap_last_os_error(&slot), Some(ENOMEM));
}

// Locked mappings.

#[test]
fn trait_surface_single_page() {
    let size = page_size(4096);
    let m = locked(size);
    assert!(m.base() % size == 0, "base must be page-aligned");
    assert!(m.size() >= size, "size must be >= requested");
    assert_eq!(m.size() % size, 0, "size must be page-aligned");
    assert_eq!(
        m.base_ptr(),
        m.base(),
        "OsBacked::base_ptr must equal FixedRange::base"
    );
    assert_eq!(
        m.region_size(),
        m.size(),
        "OsBacked::region_size must equal FixedRange::size"
    );
}

#[test]
fn bump_allocate_returns_usable_memory() {
    let size = 4 * page_size(4096);
    let mut mem = ByteMemory::zeroed(MAPPED_AT, size);
    let mut m = locked(size);
    let block = m
        .allocate(&mut mem, layout(64, 8))
        .expect("allocate must succeed in a fresh region");
    fill(&mut mem, block.addr, 64, 0xAB);
    for i in 0..64 {
        assert_eq!(mem.load(block.addr + i), 0xAB);
    }
}

#[test]
fn fixed_range_contains_allocated_pointer() {
    let mut mem = ByteMemory::zeroed(MAPPED_AT, 4096);
    let mut m = locked(page_size(4096));
    let block = m.allocate(&mut mem, layout(16, 8)).unwrap();
    assert!(m.contains(block.addr));
}

#[test]
fn drop_does_not_crash() {
    let m = locked(page_size(4096));
    let (unlock, unmap) = m.teardown();
    assert_eq!(unlock, OsCall::Unlock { addr: MAPPED_AT, len: 4096 });
    assert_eq!(unmap, OsCall::Unmap { addr: MAPPED_AT, len: 4096 });
}

#[test]
fn base_is_stable_after_move() {
    let m = locked(page_size(4096));
    let base_before = m.base();
    let m2 = m;
    assert_eq!(
        m2.base(),
        base_before,
        "base() must be identical before and after a move",
    );
}

#[test]
fn release_pages_is_noop() {
    let page = page_size(4096);
    let mut mem = ByteMemory::zeroed(MAPPED_AT, page);
    let m = locked(page);
    let base = m.base();
    fill(&mut mem, base, page, 0x5A);
    assert_eq!(m.release_pages(base, page), None);
    assert_eq!(mem.load(base), 0x5A, "data must survive the no-op release_pages");
}

#[test]
fn fail_closed_on_mapping_failure_captures_error() {
    let mut slot = OsErrorSlot::new();
    mmap_clear_last_os_error(&mut slot);
    let huge = usize::MAX / 2;
    let result =
        LockedMmapBacked::new(huge, &platform(), Err(ENOMEM), Ok(()), Ok(()), &mut slot);
    assert!(result.is_err(), "impossibly large request must fail");
    assert!(
        mmap_last_os_error(&slot).is_some(),
        "OS error must be captured on construction failure",
    );
}

#[test]
fn fail_closed_when_the_lock_is_refused() {
    let mut slot = OsErrorSlot::new();
    let page = page_size(4096);
    let result =
        LockedMmapBacked::new(page, &platform(), Ok(MAPPED_AT), Err(ENOMEM), Err(5), &mut slot);
    assert!(result.is_err());
    assert_eq!(
        mmap_last_os_error(&slot),
        Some(ENOMEM),
        "the code of the refused lock must outlive the unmapping",
    );
}

#[test]
fn locking_goes_step_by_step() {
    let p = platform();
    let at = Some(Ok(MAPPED_AT));
    assert_eq!(
        LockedMmapBacked::next_call(5000, &p, None, None),
        Some(OsCall::MapPages { len: 8192, populate: false })
    );
    assert_eq!(LockedMmapBacked::next_call(5000, &p, Some(Err(ENOMEM)), None), None);
    assert_eq!(
        LockedMmapBacked::next_call(5000, &p, at, None),
        Some(OsCall::Lock { addr: MAPPED_AT, len: 8192 })
    );
    assert_eq!(
        LockedMmapBacked::next_call(5000, &p, at, Some(Ok(()))),
        Some(OsCall::HideFromDumps { addr: MAPPED_AT, len: 8192 })
    );
    assert_eq!(
        LockedMmapBacked::next_call(5000, &p, at, Some(Err(ENOMEM))),
        Some(OsCall::Unmap { addr: MAPPED_AT, len: 8192 })
    );
    let mac = Platform::new(Target::MacX86, 4096);
    assert_eq!(LockedMmapBacked::next_call(5000, &mac, at, Some(Ok(()))), None);
    assert_eq!(LockedMmapBacked::next_call(0, &p, None, None), None);
}
