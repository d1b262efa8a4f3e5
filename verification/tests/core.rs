//! Layouts, fault policies, link codes, padding and memory.

use forge_alloc::alloc_fault_policy::{
    AllocFaultPolicy, AlwaysFail, FailAfter, FailEveryNth, FailOnSize, NeverFail,
};
use forge_alloc::backing::inline::InlineBacked;
use forge_alloc::cache_padded::{CachePadded, CACHE_LINE};
use forge_alloc::freelist_protection::{
    check_code, code_of_digest, FreelistCorruption, FreelistProtection, NoProtection, SipHashMAC,
};
use forge_alloc::memory::{copy, fill, load_word, store_word, ByteMemory, Memory};
use forge_alloc::std_compat::StdCompat;
use forge_alloc::{Layout, LayoutError, NonZeroLayout};
use siphasher::sip::SipHasher13;
use std::hash::Hasher;
use std::sync::atomic::{AtomicUsize, Ordering};

fn layout(size: usize) -> NonZeroLayout {
    NonZeroLayout::from_size_align(size, 8).unwrap()
}

/// The address of a value, as it is printed.
fn address_of<T>(value: &T) -> usize {
    let text = format!("{:p}", value);
    usize::from_str_radix(&text[2..], 16).unwrap()
}

#[test]
fn size_is_at_least_one_line() {
    assert!(core::mem::size_of::<CachePadded<AtomicUsize>>() >= CACHE_LINE);
}

#[test]
fn deref_exposes_inner_methods() {
    let p = CachePadded::new(AtomicUsize::new(0));
    p.fetch_add(1, Ordering::Relaxed);
    assert_eq!(p.load(Ordering::Relaxed), 1);
}

#[test]
fn two_instances_land_on_different_lines() {
    let pair = (
        CachePadded::new(AtomicUsize::new(0)),
        CachePadded::new(AtomicUsize::new(0)),
    );
    let a_addr = address_of(&pair.0) / CACHE_LINE;
    let b_addr = address_of(&pair.1) / CACHE_LINE;
    assert_ne!(
        a_addr, b_addr,
        "two CachePadded fields must occupy different cache lines",
    );
}

#[test]
fn padded_values_come_back() {
    let mut p = CachePadded::new(7_u32);
    *p.get_mut() = 9;
    assert_eq!(*p, 9);
    assert_eq!(p.into_inner(), 9);
    assert_eq!(*CachePadded::<u64>::default(), 0);
}

#[test]
fn never_fail_never_fails() {
    let mut p = NeverFail;
    assert!(!p.should_fail(layout(8)));
    assert!(!p.should_fail(layout(1 << 20)));
}

#[test]
fn always_fail_always_fails() {
    let mut p = AlwaysFail;
    assert!(p.should_fail(layout(8)));
    assert!(p.should_fail(layout(1 << 20)));
}

#[test]
fn alloc_fault_policy_fail_after_permits_then_fails() {
    let mut p = FailAfter::new(3);
    assert_eq!(p.remaining(), 3);
    assert!(!p.should_fail(layout(8)));
    assert!(!p.should_fail(layout(8)));
    assert!(!p.should_fail(layout(8)));
    assert_eq!(p.remaining(), 0);
    assert!(p.should_fail(layout(8)));
    assert!(p.should_fail(layout(8)));
    assert_eq!(p.remaining(), 0);
}

#[test]
fn fail_after_zero_is_always_fail() {
    let mut p = FailAfter::new(0);
    assert!(p.should_fail(layout(8)));
    assert!(p.should_fail(layout(8)));
}

#[test]
fn fail_every_nth_fails_on_period_multiples() {
    let mut p = FailEveryNth::new(3);
    let verdicts: Vec<bool> = (0..6).map(|_| p.should_fail(layout(8))).collect();
    assert_eq!(verdicts, [false, false, true, false, false, true]);
}

#[test]
fn fail_every_nth_period_one_is_always_fail() {
    let mut p = FailEveryNth::new(1);
    assert!(p.should_fail(layout(8)));
    assert!(p.should_fail(layout(8)));
}

#[test]
fn fail_on_size_threshold_is_inclusive() {
    let mut p = FailOnSize::new(64);
    assert!(!p.should_fail(layout(63)));
    assert!(p.should_fail(layout(64)));
    assert!(p.should_fail(layout(65)));
}

#[test]
fn stateful_policies_are_send_sync() {
    fn assert_send_sync<T: Send + Sync>() {}
    assert_send_sync::<FailAfter>();
    assert_send_sync::<FailEveryNth>();
    assert_send_sync::<NeverFail>();
    assert_send_sync::<AlwaysFail>();
    assert_send_sync::<FailOnSize>();
}

#[test]
fn policies_have_defaults() {
    let mut never = NeverFail::default();
    let mut always = AlwaysFail::default();
    assert!(!never.should_fail(layout(1)));
    assert!(always.should_fail(layout(1)));
}

#[test]
fn no_protection_round_trips() {
    let m = NoProtection;
    let mac = m.sign(7, 0xdead_beef);
    assert_eq!(mac, 0);
    assert!(m.verify(7, mac, 0xdead_beef).is_ok());
}

#[test]
fn no_protection_accepts_anything() {
    let m = NoProtection;
    assert!(m.verify(0, 0xffff_ffff, 0).is_ok());
    assert!(NoProtection::default().verify(1, 2, 3).is_ok());
}

#[test]
fn siphash_mac_round_trips() {
    let m = SipHashMAC::with_key([0x42; 16]);
    let mac = m.sign(123, 0xcafe_babe);
    assert!(m.verify(123, mac, 0xcafe_babe).is_ok());
}

#[test]
fn siphash_mac_detects_corruption() {
    let m = SipHashMAC::with_key([0x42; 16]);
    let mac = m.sign(123, 0xcafe_babe);
    assert!(m.verify(123, mac, 0xcafe_babf).is_err());
    assert!(m.verify(124, mac, 0xcafe_babe).is_err());
}

#[test]
fn siphash_mac_key_isolation() {
    let a = SipHashMAC::with_key([0x00; 16]);
    let b = SipHashMAC::with_key([0xff; 16]);
    let mac_a = a.sign(1, 1);
    assert!(b.verify(1, mac_a, 1).is_err());
}

#[test]
fn siphash_mac_is_the_low_half_of_the_digest() {
    let key = [0x42; 16];
    let mut h = SipHasher13::new_with_key(&key);
    h.write_u32(123);
    h.write_u64(0xcafe_babe);
    let digest = h.finish();
    let m = SipHashMAC::with_key(key);
    assert_eq!(m.sign(123, 0xcafe_babe), digest as u32);
    assert_eq!(code_of_digest(digest), digest as u32);
    assert_eq!(code_of_digest(0x1234_5678_9abc_def0), 0x9abc_def0);
}

#[test]
fn siphash_words_make_the_key() {
    let key: [u8; 16] = [1, 2, 3, 4, 5, 6, 7, 8, 9, 10, 11, 12, 13, 14, 15, 16];
    let a = SipHashMAC::with_key(key);
    let b = SipHashMAC::with_words(0x0807_0605_0403_0201, 0x100f_0e0d_0c0b_0a09);
    assert_eq!(a.sign(5, 6), b.sign(5, 6));
    assert_eq!(a.clone().sign(5, 6), a.sign(5, 6));
}

#[test]
fn random_keys_verify_their_own_codes() {
    let m = SipHashMAC::new();
    let mac = m.sign(9, 0x1000);
    assert!(m.verify(9, mac, 0x1000).is_ok());
    assert_eq!(m.verify(9, mac ^ 1, 0x1000), Err(FreelistCorruption));
    let n = SipHashMAC::default();
    assert!(n.verify(9, n.sign(9, 0x1000), 0x1000).is_ok());
}

#[test]
fn random_keys_differ() {
    let a = SipHashMAC::new();
    let b = SipHashMAC::new();
    assert!((0..64).any(|i| a.sign(i, 0x1000) != b.sign(i, 0x1000)));
}

#[test]
fn codes_are_compared_bit_for_bit() {
    assert!(check_code(0x8000_0001, 0x8000_0001).is_ok());
    for bit in 0..32 {
        assert_eq!(
            check_code(0x8000_0001, 0x8000_0001 ^ (1 << bit)),
            Err(FreelistCorruption)
        );
    }
}

#[test]
fn wiped_keys_are_zero() {
    let mut m = SipHashMAC::with_key([0x42; 16]);
    m.wipe();
    assert_eq!(m.sign(5, 6), SipHashMAC::with_key([0; 16]).sign(5, 6));
}

#[test]
fn rejects_zero_size() {
    assert!(NonZeroLayout::from_size_align(0, 8).is_err());
}

#[test]
fn rejects_non_power_of_two_align() {
    assert!(NonZeroLayout::from_size_align(16, 3).is_err());
}

#[test]
fn for_type_zst_returns_none() {
    assert!(NonZeroLayout::for_type::<()>().is_none());
}

#[test]
fn for_type_struct_returns_some() {
    let l = NonZeroLayout::for_type::<u64>().expect("u64 is not a ZST");
    assert_eq!(l.size(), 8);
    assert_eq!(l.align(), 8);
}

#[test]
fn pad_to_align_rounds_up() {
    let l = NonZeroLayout::from_size_align(13, 8).unwrap();
    assert_eq!(l.pad_to_align().size(), 16);
}

#[test]
fn pad_to_align_idempotent_when_aligned() {
    let l = NonZeroLayout::from_size_align(16, 8).unwrap();
    assert_eq!(l.pad_to_align().size(), 16);
}

#[test]
fn roundtrip_via_layout() {
    let nzl = NonZeroLayout::from_size_align(24, 8).unwrap();
    let l: Layout = nzl.into();
    let back: NonZeroLayout = l.try_into().unwrap();
    assert_eq!(nzl, back);
}

#[test]
fn array_overflow_returns_none() {
    assert!(NonZeroLayout::array::<u64>(usize::MAX).is_none());
}

#[test]
fn array_zero_elements_returns_none() {
    assert!(NonZeroLayout::array::<u64>(0).is_none());
}

#[test]
fn new_accepts_exact_isize_max_minus_align_minus_one() {
    for align in [1, 2, 4, 8, 16, 32, 1024, 4096] {
        let max = (isize::MAX as usize) - (align - 1);
        let r = NonZeroLayout::from_size_align(max, align);
        assert!(
            r.is_ok(),
            "size = isize::MAX - (align-1) = {max} with align = {align} must be accepted",
        );
        let over = max.wrapping_add(1);
        if over != 0 {
            assert!(
                NonZeroLayout::from_size_align(over, align).is_err(),
                "size = isize::MAX - (align-1) + 1 = {over} (align = {align}) must be rejected",
            );
        }
    }
}

#[test]
fn pad_to_align_at_boundary_does_not_overflow() {
    for align in [1, 2, 4, 8, 16, 4096] {
        let max = (isize::MAX as usize) - (align - 1);
        let l = NonZeroLayout::from_size_align(max, align).unwrap();
        let padded = l.pad_to_align();
        assert!(padded.size() >= max);
        assert!(padded.size() <= isize::MAX as usize);
    }
}

#[test]
fn array_usize_max_elements_returns_none() {
    assert!(NonZeroLayout::array::<u8>(usize::MAX).is_none());
    assert!(NonZeroLayout::array::<u32>(usize::MAX).is_none());
    assert!(NonZeroLayout::array::<u64>(usize::MAX).is_none());
    assert!(NonZeroLayout::array::<()>(usize::MAX).is_none());
}

#[test]
fn array_layouts_have_the_size_of_their_elements() {
    let l = NonZeroLayout::array::<u32>(7).unwrap();
    assert_eq!((l.size(), l.align()), (28, 4));
}

#[test]
fn layouts_of_zero_bytes_are_not_nonzero() {
    let empty = Layout::from_size_align(0, 8).unwrap();
    assert_eq!((empty.size(), empty.align()), (0, 8));
    let r: Result<NonZeroLayout, LayoutError> = empty.try_into();
    assert_eq!(r, Err(LayoutError));
    assert!(Layout::from_size_align(8, 3).is_err());
    assert!(Layout::from_size_align(usize::MAX, 8).is_err());
    assert_eq!(
        NonZeroLayout::new(5, 0).unwrap_err().message(),
        LayoutError.message()
    );
}

#[test]
fn stdcompat_shrink_zst_to_zst_succeeds() {
    let mut mem = ByteMemory::zeroed(16, 16);
    let mut s = StdCompat::new(InlineBacked::<0>::new());
    let zst = Layout::from_size_align(0, 8).unwrap();
    let result = s.shrink(&mut mem, 8, zst, zst);
    assert!(result.is_ok(), "ZST → ZST shrink should succeed");
    let slice = result.unwrap();
    assert_eq!(slice.len, 0);
}

#[test]
fn words_are_stored_low_byte_first() {
    let mut mem = ByteMemory::zeroed(0x100, 32);
    store_word(&mut mem, 0x103, 0x0102_0304_0506_0708);
    assert_eq!(mem.load(0x103), 0x08);
    assert_eq!(mem.load(0x10a), 0x01);
    assert_eq!(load_word(&mem, 0x103), 0x0102_0304_0506_0708);
    assert_eq!(mem.load(0x102), 0);
    assert_eq!(mem.load(0x10b), 0);
}

#[test]
fn fill_and_copy_touch_their_bytes_alone() {
    let mut mem = ByteMemory::zeroed(0x100, 32);
    fill(&mut mem, 0x104, 4, 0x5A);
    copy(&mut mem, 0x104, 0x110, 4);
    for i in 0..32 {
        let at = 0x100 + i;
        let expected = if (4..8).contains(&i) || (16..20).contains(&i) { 0x5A } else { 0 };
        assert_eq!(mem.load(at), expected, "byte {i}");
    }
}
