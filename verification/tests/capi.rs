//! The flat interface over a caller's buffer.

use forge_alloc::capi::{
    forge_bump_alloc, forge_bump_alloc_zeroed, forge_bump_allocated, forge_bump_capacity,
    forge_bump_free, forge_bump_init, forge_bump_remaining, forge_bump_reset, ForgeBump,
};
use forge_alloc::memory::{fill, ByteMemory, Memory};

const POISON: u8 = 0xDE;
const BUFFER_AT: usize = 0x1000;

#[test]
fn init_alloc_reset_destroy_round_trip() {
    let mut buf = [0u8; 1024];
    let mut mem = ByteMemory::zeroed(BUFFER_AT, 1024);
    let mut h = forge_bump_init(&mut buf, BUFFER_AT).unwrap();
    assert_eq!(forge_bump_capacity(Some(&h)), 1024);
    assert_eq!(forge_bump_allocated(Some(&h)), 0);

    let a = forge_bump_alloc(&mut h, &mut mem, 64, 8);
    let b = forge_bump_alloc(&mut h, &mut mem, 128, 16);
    assert!(a != 0 && b != 0);
    assert_ne!(a, b);
    assert_eq!(a % 8, 0);
    assert_eq!(b % 16, 0);
    assert!(forge_bump_allocated(Some(&h)) >= 192);
    assert_eq!(
        forge_bump_remaining(Some(&h)),
        1024 - forge_bump_allocated(Some(&h))
    );

    fill(&mut mem, a, 64, 0xAB);
    forge_bump_free(&mut mem, a, 64);
    assert_eq!(mem.load(a), POISON, "free must scrub with the poison pattern");
    assert_eq!(mem.load(a + 63), POISON);

    assert_eq!(forge_bump_reset(&mut h), 1);
    assert_eq!(forge_bump_allocated(Some(&h)), 0);
}

#[test]
fn alloc_zeroed_is_zero() {
    let mut buf = [0xFFu8; 256];
    let mut mem = ByteMemory::zeroed(BUFFER_AT, 256);
    fill(&mut mem, BUFFER_AT, 256, 0xFF);
    let mut h = forge_bump_init(&mut buf, BUFFER_AT).unwrap();
    let p = forge_bump_alloc_zeroed(&mut h, &mut mem, 32, 8);
    assert!(p != 0);
    assert!(
        (0..32).all(|i| mem.load(p + i) == 0),
        "alloc_zeroed must return zeros"
    );
    assert_eq!(mem.load(p + 32), 0xFF);
}

#[test]
fn exhaustion_and_invalid_args_return_null_or_zero() {
    let mut buf = [0u8; 64];
    let mut mem = ByteMemory::zeroed(BUFFER_AT, 64);
    assert!(forge_bump_init(&mut buf, 0).is_none());
    assert!(forge_bump_init(&mut [], BUFFER_AT).is_none());
    assert_eq!(forge_bump_remaining(None), 0);
    assert_eq!(forge_bump_capacity(None), 0);
    assert_eq!(forge_bump_allocated(None), 0);

    let mut h = forge_bump_init(&mut buf, BUFFER_AT).unwrap();
    assert_eq!(forge_bump_alloc(&mut h, &mut mem, 0, 8), 0);
    assert_eq!(forge_bump_alloc(&mut h, &mut mem, 16, 3), 0);
    assert_eq!(forge_bump_alloc(&mut h, &mut mem, 4096, 8), 0);
    assert_eq!(forge_bump_alloc_zeroed(&mut h, &mut mem, 4096, 8), 0);
    assert!(forge_bump_alloc(&mut h, &mut mem, 16, 8) != 0);
}

#[test]
fn failed_alloc_is_side_effect_free() {
    let mut buf = [0u8; 64];
    let mut mem = ByteMemory::zeroed(BUFFER_AT, 64);
    let mut h = forge_bump_init(&mut buf, BUFFER_AT).unwrap();
    assert!(forge_bump_alloc(&mut h, &mut mem, 16, 8) != 0);
    let allocated_before = forge_bump_allocated(Some(&h));
    let remaining_before = forge_bump_remaining(Some(&h));

    assert_eq!(forge_bump_alloc(&mut h, &mut mem, 4096, 8), 0);
    assert_eq!(forge_bump_allocated(Some(&h)), allocated_before);
    assert_eq!(forge_bump_remaining(Some(&h)), remaining_before);

    assert!(forge_bump_alloc(&mut h, &mut mem, 16, 8) != 0);
}

#[test]
fn reset_reuses_addresses() {
    let mut buf = [0u8; 256];
    let mut mem = ByteMemory::zeroed(BUFFER_AT, 256);
    let mut h = forge_bump_init(&mut buf, BUFFER_AT).unwrap();
    let first = forge_bump_alloc(&mut h, &mut mem, 32, 8);
    assert!(first != 0);
    let _ = forge_bump_alloc(&mut h, &mut mem, 32, 8);
    assert_eq!(forge_bump_reset(&mut h), 1);
    let again = forge_bump_alloc(&mut h, &mut mem, 32, 8);
    assert_eq!(first, again, "first alloc after reset must reuse the address");
}

#[test]
fn tiny_buffer_boundary() {
    let mut buf = [0u8; 1];
    let mut mem = ByteMemory::zeroed(BUFFER_AT, 1);
    let mut h = forge_bump_init(&mut buf, BUFFER_AT).unwrap();
    assert_eq!(forge_bump_capacity(Some(&h)), 1);
    assert!(forge_bump_alloc(&mut h, &mut mem, 1, 1) != 0);
    assert_eq!(forge_bump_remaining(Some(&h)), 0);
    assert_eq!(forge_bump_alloc(&mut h, &mut mem, 1, 1), 0);
}

#[test]
fn over_alignment_handling() {
    let at = 0x1040;
    let mut buf = [0u8; 256];
    let mut mem = ByteMemory::zeroed(at, 256);
    let mut h = forge_bump_init(&mut buf, at).unwrap();
    assert_eq!(forge_bump_alloc(&mut h, &mut mem, 8, 4096), 0);
    let p = forge_bump_alloc(&mut h, &mut mem, 8, 64);
    assert!(p != 0);
    assert_eq!(p % 64, 0, "returned pointer must meet the requested alignment");
}

#[test]
fn handle_layout_is_sufficient() {
    assert!(core::mem::size_of::<ForgeBump>() >= core::mem::size_of::<usize>() * 4);
    assert!(core::mem::align_of::<ForgeBump>() >= core::mem::align_of::<usize>());
}

#[test]
fn freeing_nothing_changes_nothing() {
    let mut mem = ByteMemory::zeroed(BUFFER_AT, 16);
    forge_bump_free(&mut mem, 0, 16);
    forge_bump_free(&mut mem, BUFFER_AT, 0);
    assert!((0..16).all(|i| mem.load(BUFFER_AT + i) == 0));
}
