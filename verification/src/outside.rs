//! Calls into other crates and into parts of `std` that carry no contract of their own.

use siphasher::sip::SipHasher13;
use std::collections::hash_map::RandomState;
use std::hash::{BuildHasher, Hasher};
use subtle::ConstantTimeEq;
use vstd::prelude::*;

verus! {

/// `subtle`'s `ConstantTimeEq::ct_eq` on `u64`, turned into a `bool`: true exactly where
/// the two values are equal.
#[verifier::external_body]
pub(crate) fn ct_eq_u64(a: u64, b: u64) -> (r: bool)
    ensures
        r == (a == b),
{
    bool::from(a.ct_eq(&b))
}

/// `subtle`'s `ConstantTimeEq::ct_eq` on `u32`, turned into a `bool`: true exactly where
/// the two values are equal.
#[verifier::external_body]
pub(crate) fn ct_eq_u32(a: u32, b: u32) -> (r: bool)
    ensures
        r == (a == b),
{
    bool::from(a.ct_eq(&b))
}

/// `RandomState::new`: a hasher state with keys drawn by the operating system. Nothing is
/// claimed of the keys.
#[verifier::external_body]
pub(crate) fn fresh_random_state() -> (r: RandomState) {
    RandomState::new()
}

/// `BuildHasher::hash_one` of a `RandomState`: the hash of one word under its random keys.
/// Nothing is claimed of the hash.
#[verifier::external_body]
pub(crate) fn random_hash(state: &RandomState, word: u64) -> (r: u64) {
    state.hash_one(word)
}

/// The values of `libc::PROT_NONE`, `PROT_READ`, `PROT_WRITE` and `PROT_EXEC`, as `libc`
/// defines them for Linux.
#[verifier::external_body]
pub(crate) fn prot_bits() -> (r: (i32, i32, i32, i32))
    ensures
        r == (0i32, 1i32, 2i32, 4i32),
{
    (libc::PROT_NONE, libc::PROT_READ, libc::PROT_WRITE, libc::PROT_EXEC)
}

/// The values of `libc::MAP_PRIVATE`, `MAP_ANONYMOUS`, `MAP_POPULATE`, `MAP_HUGETLB` and
/// `MAP_HUGE_SHIFT`, as `libc` defines them for Linux on x86-64.
#[verifier::external_body]
pub(crate) fn map_bits() -> (r: (i32, i32, i32, i32, i32))
    ensures
        r == (0x2i32, 0x20i32, 0x8000i32, 0x40000i32, 26i32),
{
    (
        libc::MAP_PRIVATE,
        libc::MAP_ANONYMOUS,
        libc::MAP_POPULATE,
        libc::MAP_HUGETLB,
        libc::MAP_HUGE_SHIFT,
    )
}

/// The values of `libc::MADV_DONTNEED` and `MADV_DONTDUMP`, as `libc` defines them for
/// Linux.
#[verifier::external_body]
pub(crate) fn advice_values() -> (r: (i32, i32))
    ensures
        r == (4i32, 16i32),
{
    (libc::MADV_DONTNEED, libc::MADV_DONTDUMP)
}

/// The value of `libc::EINVAL`, as `libc` defines it for Linux.
#[verifier::external_body]
pub(crate) fn einval() -> (r: i32)
    ensures
        r == 22,
{
    libc::EINVAL
}

/// The value of `ERROR_INVALID_PARAMETER` of `windows_sys`.
#[verifier::external_body]
pub(crate) fn error_invalid_parameter() -> (r: u32)
    ensures
        r == 87,
{
    windows_sys::Win32::Foundation::ERROR_INVALID_PARAMETER
}

/// The values of `PAGE_NOACCESS`, `PAGE_READONLY`, `PAGE_READWRITE`, `PAGE_EXECUTE`,
/// `PAGE_EXECUTE_READ` and `PAGE_EXECUTE_READWRITE` of `windows_sys`.
#[verifier::external_body]
pub(crate) fn page_protections() -> (r: (u32, u32, u32, u32, u32, u32))
    ensures
        r == (1u32, 2u32, 4u32, 0x10u32, 0x20u32, 0x40u32),
{
    (
        windows_sys::Win32::System::Memory::PAGE_NOACCESS,
        windows_sys::Win32::System::Memory::PAGE_READONLY,
        windows_sys::Win32::System::Memory::PAGE_READWRITE,
        windows_sys::Win32::System::Memory::PAGE_EXECUTE,
        windows_sys::Win32::System::Memory::PAGE_EXECUTE_READ,
        windows_sys::Win32::System::Memory::PAGE_EXECUTE_READWRITE,
    )
}

/// The SipHash-1-3 digest, under a 16-byte key, of a link and the address it is stored at.
pub uninterp spec fn sip13(key: Seq<u8>, next_idx: u32, slot_addr: u64) -> u64;

/// `siphasher`'s `SipHasher13`: the digest of the 32-bit link followed by the 64-bit
/// address, low bytes first on every machine. It depends on the key and on these two values
/// alone and is named [`sip13`]; which number it is, is left unsaid.
#[verifier::external_body]
pub(crate) fn sip13_digest(key: &[u8; 16], next_idx: u32, slot_addr: u64) -> (r: u64)
    ensures
        r == sip13(key@, next_idx, slot_addr),
{
    let mut hasher = SipHasher13::new_with_key(key);
    hasher.write_u32(next_idx.to_le());
    hasher.write_u64(slot_addr.to_le());
    hasher.finish()
}

} // verus!
